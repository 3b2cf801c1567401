//! Subscriptions: a position in a topic's log, and the record of what was
//! delivered and not yet acknowledged.

use crate::commit_log::{CommitLog, Cursor, CursorView, Index, LogView};
use crate::message::{next_try, Envelope, Message};
use crate::time::{elapsed_within, is_within, now, Duration, Timestamp};
use crate::topic::Topic;
use std::collections::HashSet;
use std::collections::VecDeque;
use vstd::prelude::*;
use vstd::std_specs::convert::FromSpecImpl;
use vstd::std_specs::hash::*;

verus! {

/// The record of one delivery that awaits its acknowledgement.
#[derive(Clone, Copy, Debug, PartialEq, Eq, Structural)]
pub struct PendingMessage {
    /// Time of the delivery.
    pub time_sent: Timestamp,
    /// Identifier of the message that was delivered.
    pub message_id: u128,
    /// The number of times the message had been tried at this delivery.
    pub tries: u32,
    /// Where the message stands in the topic's log.
    pub index: Index,
}

impl PendingMessage {
    /// Records a delivery made at `time_sent`.
    pub fn new(message_id: u128, tries: u32, index: Index, time_sent: Timestamp) -> (p: Self)
        ensures
            p == (PendingMessage { time_sent, message_id, tries, index }),
    {
        PendingMessage { time_sent, message_id, tries, index }
    }

    /// The record names a position that `log` has given out, and for as long
    /// as the message at that position lives it is the message that was
    /// delivered.
    pub open spec fn wf(self, log: LogView<Envelope>) -> bool {
        match self.index.at {
            Some(seq) => seq < log.end() && (log.is_live(seq as int) ==> log.get(seq as int).id
                == self.message_id),
            None => true,
        }
    }
}

/// Whether the delivery at position `i` of the record `pending` is one of the
/// message `id`.
pub open spec fn recorded(pending: Seq<PendingMessage>, id: u128, i: int) -> bool {
    0 <= i < pending.len() && pending[i].message_id == id
}

/// Whether there is a delivery of the message `id` on the record `pending`.
pub open spec fn on_record(pending: Seq<PendingMessage>, id: u128) -> bool {
    exists|i: int| recorded(pending, id, i)
}

/// Whether there are two deliveries of the message `id` on the record
/// `pending`.
pub open spec fn twice_on_record(pending: Seq<PendingMessage>, id: u128) -> bool {
    exists|i: int, j: int| i < j && recorded(pending, id, i) && recorded(pending, id, j)
}

/// The books are in order for the message `id`: if an acknowledgement of it
/// is accepted, or it was acknowledged, a delivery of it is on record; if
/// both, then two deliveries are, the one that was acknowledged and a later
/// one.
pub open spec fn accounts_for(
    pending: Seq<PendingMessage>,
    pending_ids: Set<u128>,
    acked: Set<u128>,
    id: u128,
) -> bool {
    &&& pending_ids.contains(id) || acked.contains(id) ==> on_record(pending, id)
    &&& pending_ids.contains(id) && acked.contains(id) ==> twice_on_record(pending, id)
}

/// The books are in order for every message.
pub open spec fn books_in_order(pending: Seq<PendingMessage>, pending_ids: Set<u128>, acked: Set<u128>) -> bool {
    forall|id: u128| #[trigger] accounts_for(pending, pending_ids, acked, id)
}

/// What a [`Subscription`] is: its settings and timestamps, where its cursor
/// stands, the deliveries that await an acknowledgement (oldest first), the
/// identifiers an acknowledgement is accepted for, and the identifiers that
/// were acknowledged while their delivery was still on record.
pub struct SubscriptionView {
    pub name: Seq<char>,
    pub topic: Seq<char>,
    pub ack_deadline: Duration,
    pub ttl: Duration,
    pub created: Timestamp,
    pub updated: Timestamp,
    pub cursor: CursorView,
    pub pending: Seq<PendingMessage>,
    pub pending_ids: Set<u128>,
    pub acked: Set<u128>,
    pub orphaned: bool,
}

impl SubscriptionView {
    /// A subscription that has just been created with its cursor at `cursor`.
    pub open spec fn fresh(
        name: Seq<char>,
        topic: Seq<char>,
        ack_deadline: Duration,
        ttl: Duration,
        cursor: CursorView,
        now: Timestamp,
    ) -> Self {
        SubscriptionView {
            name,
            topic,
            ack_deadline,
            ttl,
            created: now,
            updated: now,
            cursor,
            pending: Seq::empty(),
            pending_ids: Set::empty(),
            acked: Set::empty(),
            orphaned: false,
        }
    }

    /// The subscription reads `log`: its topic is not gone, its cursor is a
    /// cursor of `log` and its records are records of deliveries from `log`.
    pub open spec fn wf(self, log: LogView<Envelope>) -> bool {
        &&& !self.orphaned
        &&& self.cursor.wf(log)
        &&& forall|i: int| 0 <= i < self.pending.len() ==> (#[trigger] self.pending[i]).wf(log)
    }

    /// The books are in order for every message; see [`books_in_order`].
    pub open spec fn accounted(self) -> bool {
        books_in_order(self.pending, self.pending_ids, self.acked)
    }

    /// The subscription after it is touched at `now`.
    pub open spec fn touch(self, now: Timestamp) -> Self {
        SubscriptionView { updated: now, ..self }
    }

    /// The subscription after an update at `now` that sets the settings that
    /// are given.
    pub open spec fn update(self, ack_deadline: Option<Duration>, ttl: Option<Duration>, now: Timestamp) -> Self {
        SubscriptionView {
            ack_deadline: match ack_deadline {
                Some(v) => v,
                None => self.ack_deadline,
            },
            ttl: match ttl {
                Some(v) => v,
                None => self.ttl,
            },
            updated: now,
            ..self
        }
    }

    /// The subscription without its oldest record.
    pub open spec fn without_head(self) -> Self
        recommends
            self.pending.len() > 0,
    {
        SubscriptionView { pending: self.pending.skip(1), ..self }
    }

    /// The scan for a delivery that is due again. Records are taken from the
    /// front, oldest first:
    /// - one whose message has left the log is dropped, and its identifier
    ///   forgotten;
    /// - one whose message was acknowledged is dropped, and the
    ///   acknowledgement is used up;
    /// - one that is younger than the deadline ends the scan, and stays;
    /// - any other is due: it ends the scan, and is taken off the record.
    ///
    /// The result is the subscription after the scan and the record that is
    /// due, if one is.
    pub open spec fn check_pending(self, log: LogView<Envelope>, now: Timestamp) -> (
        SubscriptionView,
        Option<PendingMessage>,
    )
        decreases self.pending.len(),
    {
        if self.pending.len() == 0 {
            (self, None)
        } else {
            let head = self.pending[0];
            let rest = self.without_head();
            match head.index.resolve(log) {
                None => (SubscriptionView {
                    pending_ids: rest.pending_ids.remove(head.message_id),
                    acked: rest.acked.remove(head.message_id),
                    ..rest
                }).check_pending(log, now),
                Some(seq) => {
                    let id = log.get(seq as int).id;
                    if self.acked.contains(id) {
                        (SubscriptionView { acked: rest.acked.remove(id), ..rest }).check_pending(
                            log,
                            now,
                        )
                    } else if elapsed_within(now, head.time_sent, self.ack_deadline) {
                        (self, None)
                    } else {
                        (rest, Some(head))
                    }
                },
            }
        }
    }

    /// The subscription after the message `id` is handed out at `now` on its
    /// `tries`-th try: an acknowledgement of `id` is accepted from now on, and
    /// the delivery goes on record behind all others.
    pub open spec fn deliver(self, id: u128, tries: u32, index: Index, now: Timestamp) -> Self {
        SubscriptionView {
            pending_ids: self.pending_ids.insert(id),
            pending: self.pending.push(PendingMessage { time_sent: now, message_id: id, tries, index }),
            ..self
        }
    }

    /// One pull at `now`: the subscription afterwards, and the message that is
    /// handed out, if one is. A delivery that is due again comes before any
    /// message the cursor has not reached yet, with its tries counted up; a
    /// message the cursor steps onto is on its first try.
    pub open spec fn pull(self, log: LogView<Envelope>, now: Timestamp) -> (SubscriptionView, Option<Message>) {
        let (scanned, due) = self.touch(now).check_pending(log, now);
        match due {
            Some(record) => {
                let envelope = log.get(record.index.at->0 as int);
                let tries = next_try(record.tries);
                (scanned.deliver(envelope.id, tries, record.index, now), Some(Message::of(envelope, tries)))
            },
            None => {
                let (cursor, reached) = scanned.cursor.advance(log);
                let moved = SubscriptionView { cursor, ..scanned };
                match reached {
                    Some(seq) => {
                        let envelope = log.get(seq as int);
                        (
                            moved.deliver(envelope.id, 1, Index { at: Some(seq as usize) }, now),
                            Some(Message::of(envelope, 1)),
                        )
                    },
                    None => (moved, None),
                }
            },
        }
    }

    /// Up to `max` pulls at `now`, one after the other, that end with the
    /// first pull that hands out nothing: the subscription afterwards, and the
    /// messages handed out, in the order of the pulls.
    pub open spec fn pull_many(self, log: LogView<Envelope>, now: Timestamp, max: nat) -> (
        SubscriptionView,
        Seq<Message>,
    )
        decreases max,
    {
        if max == 0 {
            (self, Seq::empty())
        } else {
            let (after, message) = self.pull(log, now);
            match message {
                Some(m) => {
                    let (last, more) = after.pull_many(log, now, (max - 1) as nat);
                    (last, seq![m] + more)
                },
                None => (after, Seq::empty()),
            }
        }
    }

    /// The subscription after its oldest delivery is taken off the record
    /// and the identifier of that delivery is forgotten.
    pub open spec fn forget_head(self) -> Self
        recommends
            self.pending.len() > 0,
    {
        SubscriptionView {
            pending: self.pending.skip(1),
            pending_ids: self.pending_ids.remove(self.pending[0].message_id),
            acked: self.acked.remove(self.pending[0].message_id),
            ..self
        }
    }

    /// The subscription after its oldest delivery, which was acknowledged, is
    /// taken off the record and the acknowledgement used up.
    pub open spec fn settle_head(self) -> Self
        recommends
            self.pending.len() > 0,
    {
        SubscriptionView {
            pending: self.pending.skip(1),
            acked: self.acked.remove(self.pending[0].message_id),
            ..self
        }
    }

    /// Whether the scan for a due delivery passes over the oldest delivery
    /// on record: whether its message has left `log` or was acknowledged.
    pub open spec fn passes_head(self, log: LogView<Envelope>) -> bool
        recommends
            self.pending.len() > 0,
    {
        self.pending[0].index.resolve(log) is None || self.acked.contains(self.pending[0].message_id)
    }

    /// The subscription after the scan has passed over its oldest delivery.
    pub open spec fn pass_head(self, log: LogView<Envelope>) -> Self
        recommends
            self.pending.len() > 0,
            self.passes_head(log),
    {
        if self.pending[0].index.resolve(log) is None {
            self.forget_head()
        } else {
            self.settle_head()
        }
    }

    /// Whether the scan for a due delivery passes over the `count` oldest
    /// deliveries on record, one after the other.
    pub open spec fn passes(self, log: LogView<Envelope>, count: nat) -> bool
        decreases count,
    {
        count == 0 || (self.pending.len() > 0 && self.passes_head(log) && self.pass_head(log).passes(
            log,
            (count - 1) as nat,
        ))
    }

    /// The subscription after the scan has passed over its `count` oldest
    /// deliveries.
    pub open spec fn pass(self, log: LogView<Envelope>, count: nat) -> Self
        recommends
            self.passes(log, count),
        decreases count,
    {
        if count == 0 {
            self
        } else {
            self.pass_head(log).pass(log, (count - 1) as nat)
        }
    }

    /// Whether the element of `log` with sequence number `seq` is ahead of
    /// the cursor: whether the cursor has yet to step onto it.
    pub open spec fn ahead(self, log: LogView<Envelope>, seq: int) -> bool {
        log.is_live(seq) && match self.cursor.held {
            None => true,
            Some(held) => seq > held,
        }
    }

    /// Whether at most one delivery of the message `id` is on record.
    pub open spec fn once_on_record(self, id: u128) -> bool {
        forall|i: int, j: int|
            #![trigger recorded(self.pending, id, i), recorded(self.pending, id, j)]
            recorded(self.pending, id, i) && recorded(self.pending, id, j) ==> i == j
    }

    /// Whether no message with the identifier `id` is ahead of the cursor.
    pub open spec fn none_ahead(self, log: LogView<Envelope>, id: u128) -> bool {
        forall|seq: int| #[trigger] self.ahead(log, seq) ==> log.get(seq).id != id
    }

    /// The subscription is done with the message `id`: no acknowledgement of
    /// it is accepted; at most one delivery of it is on record, and that one
    /// was acknowledged or is of a message that has left the log; and no
    /// message with that identifier is ahead of the cursor.
    pub open spec fn done_with(self, log: LogView<Envelope>, id: u128) -> bool {
        &&& !self.pending_ids.contains(id)
        &&& self.once_on_record(id)
        &&& forall|i: int|
            #[trigger] recorded(self.pending, id, i) ==> self.acked.contains(id)
                || self.pending[i].index.resolve(log) is None
        &&& self.none_ahead(log, id)
    }

    /// The subscription once its topic is gone, and the log it read with it.
    pub open spec fn orphan(self) -> Self {
        SubscriptionView { orphaned: true, ..self }
    }

    /// A pull at `now` from a subscription whose topic is gone. It hands out
    /// nothing. Every message that was delivered has gone with the log, so the
    /// scan for a due delivery, as over a log that holds nothing, takes every
    /// delivery off the record and forgets its identifier. The cursor stays.
    pub open spec fn pull_orphaned(self, now: Timestamp) -> Self {
        self.touch(now).check_pending(LogView { dropped: 0, items: Seq::empty() }, now).0
    }

    /// Whether an acknowledgement of `id` is accepted.
    pub open spec fn accepts(self, id: u128) -> bool {
        self.pending_ids.contains(id)
    }

    /// The subscription after an acknowledgement of `id` at `now`.
    pub open spec fn ack(self, id: u128, now: Timestamp) -> Self {
        if self.accepts(id) {
            SubscriptionView {
                updated: now,
                pending_ids: self.pending_ids.remove(id),
                acked: self.acked.insert(id),
                ..self
            }
        } else {
            self.touch(now)
        }
    }

    /// The subscription after the identifiers `ids` are acknowledged at `now`,
    /// one after the other.
    pub open spec fn ack_many(self, ids: Seq<u128>, now: Timestamp) -> Self
        decreases ids.len(),
    {
        if ids.len() == 0 {
            self
        } else {
            self.ack_many(ids.drop_last(), now).ack(ids.last(), now)
        }
    }

    /// The identifiers among `ids` whose acknowledgement is accepted when they
    /// are acknowledged one after the other, in the order of `ids`.
    pub open spec fn accepted(self, ids: Seq<u128>, now: Timestamp) -> Seq<u128>
        decreases ids.len(),
    {
        if ids.len() == 0 {
            Seq::empty()
        } else {
            let before = self.accepted(ids.drop_last(), now);
            if self.ack_many(ids.drop_last(), now).accepts(ids.last()) {
                before.push(ids.last())
            } else {
                before
            }
        }
    }
}

/// A subscription that reads a log reads every later state of it.
pub proof fn lemma_wf_extends(s: SubscriptionView, log: LogView<Envelope>, later: LogView<Envelope>)
    requires
        s.wf(log),
        later.extends(log),
    ensures
        s.wf(later),
{
    assert forall|i: int| 0 <= i < s.pending.len() implies (#[trigger] s.pending[i]).wf(later) by {
        let record = s.pending[i];
        assert(record.wf(log));
        if let Some(seq) = record.index.at {
            if later.is_live(seq as int) {
                assert(later.get(seq as int) == log.get(seq as int));
            }
        }
    }
}

/// The scan for a due delivery touches nothing but the record: it takes
/// records off its front and forgets identifiers.
pub proof fn lemma_check_pending_frame(s: SubscriptionView, log: LogView<Envelope>, now: Timestamp)
    ensures
        ({
            let after = s.check_pending(log, now).0;
            &&& after.name == s.name
            &&& after.topic == s.topic
            &&& after.ack_deadline == s.ack_deadline
            &&& after.ttl == s.ttl
            &&& after.created == s.created
            &&& after.updated == s.updated
            &&& after.cursor == s.cursor
            &&& after.orphaned == s.orphaned
            &&& after.pending.len() <= s.pending.len()
            &&& after.pending == s.pending.skip(s.pending.len() - after.pending.len())
            &&& after.pending_ids.subset_of(s.pending_ids)
            &&& after.acked.subset_of(s.acked)
        }),
    decreases s.pending.len(),
{
    if s.pending.len() > 0 {
        let head = s.pending[0];
        let rest = s.without_head();
        let next = match head.index.resolve(log) {
            None => SubscriptionView {
                pending_ids: rest.pending_ids.remove(head.message_id),
                acked: rest.acked.remove(head.message_id),
                ..rest
            },
            Some(seq) => SubscriptionView { acked: rest.acked.remove(log.get(seq as int).id), ..rest },
        };
        lemma_check_pending_frame(next, log, now);
        let after = s.check_pending(log, now).0;
        if after == next.check_pending(log, now).0 {
            assert(next.pending.skip(next.pending.len() - after.pending.len()) =~= s.pending.skip(
                s.pending.len() - after.pending.len(),
            ));
        } else if after == s {
            assert(s.pending.skip(0) =~= s.pending);
        } else {
            assert(after == rest);
        }
    } else {
        assert(s.pending.skip(0) =~= s.pending);
    }
}

/// The number of `messages` that are not on their first try.
pub open spec fn retries(messages: Seq<Message>) -> nat
    decreases messages.len(),
{
    if messages.len() == 0 {
        0
    } else {
        retries(messages.drop_last()) + if messages.last().tries > 1 {
            1nat
        } else {
            0nat
        }
    }
}

/// No more messages are retries than there are messages.
pub proof fn lemma_retries_bound(messages: Seq<Message>)
    ensures
        retries(messages) <= messages.len(),
    decreases messages.len(),
{
    if messages.len() > 0 {
        lemma_retries_bound(messages.drop_last());
    }
}

/// A pull at `now` leaves the subscription touched at `now`, with its
/// settings as they were.
pub proof fn lemma_pull_frame(s: SubscriptionView, log: LogView<Envelope>, now: Timestamp)
    ensures
        ({
            let after = s.pull(log, now).0;
            &&& after.name == s.name
            &&& after.topic == s.topic
            &&& after.ack_deadline == s.ack_deadline
            &&& after.ttl == s.ttl
            &&& after.created == s.created
            &&& after.updated == now
            &&& after.orphaned == s.orphaned
        }),
{
    lemma_check_pending_frame(s.touch(now), log, now);
}

/// A pull keeps the subscription reading its log.
pub proof fn lemma_pull_wf(s: SubscriptionView, log: LogView<Envelope>, now: Timestamp)
    requires
        s.wf(log),
        log.end() <= usize::MAX,
    ensures
        s.pull(log, now).0.wf(log),
{
    let touched = s.touch(now);
    lemma_check_pending_frame(touched, log, now);
    lemma_check_pending_due(touched, log, now);
    let (scanned, due) = touched.check_pending(log, now);
    let after = s.pull(log, now).0;
    assert forall|i: int| 0 <= i < scanned.pending.len() implies (#[trigger] scanned.pending[i]).wf(log) by {
        assert(scanned.pending[i] == touched.pending[i + (touched.pending.len() - scanned.pending.len())]);
    }
    assert forall|i: int| 0 <= i < after.pending.len() implies (#[trigger] after.pending[i]).wf(log) by {
        if i < scanned.pending.len() {
            assert(after.pending[i] == scanned.pending[i]);
        }
    }
}

/// A delivery that the scan finds due is a record of the subscription whose
/// message is still in the log.
pub proof fn lemma_check_pending_due(s: SubscriptionView, log: LogView<Envelope>, now: Timestamp)
    requires
        s.wf(log),
    ensures
        match s.check_pending(log, now).1 {
            Some(record) => record.wf(log) && record.index.resolve(log) is Some && s.pending.contains(
                record,
            ),
            None => true,
        },
    decreases s.pending.len(),
{
    if s.pending.len() > 0 {
        let head = s.pending[0];
        let rest = s.without_head();
        assert(head.wf(log));
        let next = match head.index.resolve(log) {
            None => SubscriptionView {
                pending_ids: rest.pending_ids.remove(head.message_id),
                acked: rest.acked.remove(head.message_id),
                ..rest
            },
            Some(seq) => SubscriptionView { acked: rest.acked.remove(log.get(seq as int).id), ..rest },
        };
        assert forall|i: int| 0 <= i < next.pending.len() implies (#[trigger] next.pending[i]).wf(log) by {
            assert(next.pending[i] == s.pending[i + 1]);
        }
        lemma_check_pending_due(next, log, now);
        if let Some(record) = s.check_pending(log, now).1 {
            if s.check_pending(log, now) == next.check_pending(log, now) {
                let i = choose|i: int| 0 <= i < next.pending.len() && next.pending[i] == record;
                assert(s.pending[i + 1] == record);
            }
        }
    }
}

/// Pulling again and again keeps the subscription reading its log and its
/// settings as they were, and hands out no more messages than asked for.
pub proof fn lemma_pull_many_frame(s: SubscriptionView, log: LogView<Envelope>, now: Timestamp, max: nat)
    requires
        s.wf(log),
        log.end() <= usize::MAX,
    ensures
        ({
            let (after, messages) = s.pull_many(log, now, max);
            &&& after.wf(log)
            &&& after.name == s.name
            &&& after.topic == s.topic
            &&& after.ack_deadline == s.ack_deadline
            &&& after.ttl == s.ttl
            &&& after.created == s.created
            &&& after.orphaned == s.orphaned
            &&& messages.len() <= max
            &&& max == 0 ==> after == s
            &&& max > 0 ==> after.updated == now
            &&& s.accounted() ==> after.accounted()
        }),
    decreases max,
{
    if max > 0 {
        lemma_pull_frame(s, log, now);
        lemma_pull_wf(s, log, now);
        if s.accounted() {
            lemma_pull_accounted(s, log, now);
        }
        let (after, message) = s.pull(log, now);
        if message is Some {
            lemma_pull_many_frame(after, log, now, (max - 1) as nat);
        }
    }
}

/// Acknowledging keeps the subscription reading its log and its settings as
/// they were.
pub proof fn lemma_ack_many_frame(s: SubscriptionView, ids: Seq<u128>, now: Timestamp)
    ensures
        ({
            let after = s.ack_many(ids, now);
            &&& after.name == s.name
            &&& after.topic == s.topic
            &&& after.ack_deadline == s.ack_deadline
            &&& after.ttl == s.ttl
            &&& after.created == s.created
            &&& after.cursor == s.cursor
            &&& after.pending == s.pending
            &&& after.orphaned == s.orphaned
            &&& s.accepted(ids, now).len() <= ids.len()
            &&& s.accounted() ==> after.accounted()
        }),
    decreases ids.len(),
{
    if ids.len() > 0 {
        lemma_ack_many_frame(s, ids.drop_last(), now);
        if s.accounted() {
            lemma_ack_accounted(s.ack_many(ids.drop_last(), now), ids.last(), now);
        }
    }
}

/// The oldest delivery on record is of a message that has left the log: a
/// pull goes on as if the delivery had never been made, and no
/// acknowledgement of it is accepted any more.
pub proof fn lemma_head_expired(s: SubscriptionView, log: LogView<Envelope>, now: Timestamp)
    requires
        s.pending.len() > 0,
        s.pending[0].index.resolve(log) is None,
    ensures
        s.pull(log, now) == s.forget_head().pull(log, now),
        !s.forget_head().accepts(s.pending[0].message_id),
{
    let touched = s.touch(now);
    assert(touched.without_head().pending == s.pending.skip(1));
    assert(touched.check_pending(log, now) == s.forget_head().touch(now).check_pending(log, now));
}

/// The oldest delivery on record was acknowledged, and its message is still
/// in the log: a pull takes it off the record, uses the acknowledgement up,
/// and goes on with what is left; the message is not handed out on account of
/// this delivery.
pub proof fn lemma_head_acked(s: SubscriptionView, log: LogView<Envelope>, now: Timestamp)
    requires
        s.wf(log),
        s.pending.len() > 0,
        s.pending[0].index.resolve(log) is Some,
        s.acked.contains(s.pending[0].message_id),
    ensures
        s.pull(log, now) == s.settle_head().pull(log, now),
{
    let touched = s.touch(now);
    assert(s.pending[0].wf(log));
    assert(touched.check_pending(log, now) == s.settle_head().touch(now).check_pending(log, now));
}

/// The oldest delivery on record was not acknowledged, its message is still
/// in the log, and the ack deadline has not passed since the delivery: a
/// pull leaves the record as it is and hands out only what the cursor steps
/// onto, on its first try.
pub proof fn lemma_head_waits(s: SubscriptionView, log: LogView<Envelope>, now: Timestamp)
    requires
        s.wf(log),
        s.pending.len() > 0,
        s.pending[0].index.resolve(log) is Some,
        !s.acked.contains(s.pending[0].message_id),
        elapsed_within(now, s.pending[0].time_sent, s.ack_deadline),
    ensures
        ({
            let (after, message) = s.pull(log, now);
            let (cursor, reached) = s.cursor.advance(log);
            &&& after.cursor == cursor
            &&& after.acked == s.acked
            &&& match reached {
                Some(seq) => {
                    &&& message == Some(Message::of(log.get(seq as int), 1))
                    &&& after.pending == s.pending.push(
                        PendingMessage {
                            time_sent: now,
                            message_id: log.get(seq as int).id,
                            tries: 1,
                            index: Index { at: Some(seq as usize) },
                        },
                    )
                    &&& after.pending_ids == s.pending_ids.insert(log.get(seq as int).id)
                },
                None => message is None && after.pending == s.pending && after.pending_ids == s.pending_ids,
            }
        }),
{
    assert(s.pending[0].wf(log));
}

/// The oldest delivery on record was not acknowledged, its message is still
/// in the log, and the ack deadline has passed since the delivery: a pull
/// hands the message out again, with the tries of that delivery counted up,
/// and records the new delivery behind all others in place of the old one.
/// The cursor does not move, no identifier is added or forgotten if the
/// delivery could be acknowledged, and the message can be acknowledged.
pub proof fn lemma_head_due(s: SubscriptionView, log: LogView<Envelope>, now: Timestamp)
    requires
        s.wf(log),
        s.pending.len() > 0,
        s.pending[0].index.resolve(log) is Some,
        !s.acked.contains(s.pending[0].message_id),
        !elapsed_within(now, s.pending[0].time_sent, s.ack_deadline),
    ensures
        ({
            let (after, message) = s.pull(log, now);
            let head = s.pending[0];
            let envelope = log.get(head.index.at->0 as int);
            &&& envelope.id == head.message_id
            &&& message == Some(Message::of(envelope, next_try(head.tries)))
            &&& after.cursor == s.cursor
            &&& after.pending == s.pending.skip(1).push(
                PendingMessage {
                    time_sent: now,
                    message_id: head.message_id,
                    tries: next_try(head.tries),
                    index: head.index,
                },
            )
            &&& after.pending_ids == s.pending_ids.insert(head.message_id)
            &&& s.accepts(head.message_id) ==> after.pending_ids == s.pending_ids
            &&& after.acked == s.acked
            &&& after.accepts(head.message_id)
        }),
{
    assert(s.pending[0].wf(log));
    let touched = s.touch(now);
    assert(touched.check_pending(log, now) == (touched.without_head(), Some(s.pending[0])));
    if s.accepts(s.pending[0].message_id) {
        assert(s.pending_ids.insert(s.pending[0].message_id) =~= s.pending_ids);
    }
}

/// Where the scan for a due delivery passes over the `count` oldest
/// deliveries on record, a pull goes on with the delivery behind them: what
/// it hands out and what it leaves are what a pull hands out and leaves once
/// those deliveries are off the record.
pub proof fn lemma_passes(s: SubscriptionView, log: LogView<Envelope>, now: Timestamp, count: nat)
    requires
        s.wf(log),
        s.passes(log, count),
    ensures
        count <= s.pending.len(),
        s.pull(log, now) == s.pass(log, count).pull(log, now),
        s.pass(log, count).wf(log),
        s.pass(log, count).pending == s.pending.skip(count as int),
        s.pass(log, count).cursor == s.cursor,
        s.pass(log, count).ack_deadline == s.ack_deadline,
        s.pass(log, count).pending_ids.subset_of(s.pending_ids),
        s.pass(log, count).acked.subset_of(s.acked),
    decreases count,
{
    if count == 0 {
        assert(s.pending.skip(0) =~= s.pending);
    } else {
        let next = s.pass_head(log);
        if s.pending[0].index.resolve(log) is None {
            lemma_head_expired(s, log, now);
        } else {
            lemma_head_acked(s, log, now);
        }
        assert forall|i: int| 0 <= i < next.pending.len() implies (#[trigger] next.pending[i]).wf(log) by {
            assert(next.pending[i] == s.pending[i + 1]);
        }
        lemma_passes(next, log, now, (count - 1) as nat);
        assert(next.pending.skip(count - 1) =~= s.pending.skip(count as int));
    }
}

/// The first delivery on record that is neither of a message that has left
/// the log nor acknowledged is handed out again once the ack deadline has
/// passed since it was made: the pull hands out its message with the tries
/// of that delivery counted up, takes the deliveries before it and the
/// delivery itself off the record, and records the new delivery behind all
/// others. The cursor does not move, and the message can be acknowledged.
pub proof fn lemma_first_due_is_redelivered(
    s: SubscriptionView,
    log: LogView<Envelope>,
    now: Timestamp,
    before: nat,
)
    requires
        s.wf(log),
        s.passes(log, before),
        before < s.pending.len(),
        s.pending[before as int].index.resolve(log) is Some,
        !s.pass(log, before).acked.contains(s.pending[before as int].message_id),
        !elapsed_within(now, s.pending[before as int].time_sent, s.ack_deadline),
    ensures
        ({
            let (after, message) = s.pull(log, now);
            let record = s.pending[before as int];
            let envelope = log.get(record.index.at->0 as int);
            &&& envelope.id == record.message_id
            &&& message == Some(Message::of(envelope, next_try(record.tries)))
            &&& after.cursor == s.cursor
            &&& after.pending == s.pending.skip(before as int + 1).push(
                PendingMessage {
                    time_sent: now,
                    message_id: record.message_id,
                    tries: next_try(record.tries),
                    index: record.index,
                },
            )
            &&& after.pending_ids == s.pass(log, before).pending_ids.insert(record.message_id)
            &&& after.acked == s.pass(log, before).acked
            &&& after.accepts(record.message_id)
        }),
{
    lemma_passes(s, log, now, before);
    let passed = s.pass(log, before);
    assert(passed.pending[0] == s.pending[before as int]);
    lemma_head_due(passed, log, now);
    assert(passed.pending.skip(1) =~= s.pending.skip(before as int + 1));
}

/// The first delivery on record that is neither of a message that has left
/// the log nor acknowledged stays on record while the ack deadline has not
/// passed since it was made: the pull takes the deliveries before it off the
/// record and hands out only what the cursor steps onto.
pub proof fn lemma_first_waiting_stays(
    s: SubscriptionView,
    log: LogView<Envelope>,
    now: Timestamp,
    before: nat,
)
    requires
        s.wf(log),
        s.passes(log, before),
        before < s.pending.len(),
        s.pending[before as int].index.resolve(log) is Some,
        !s.pass(log, before).acked.contains(s.pending[before as int].message_id),
        elapsed_within(now, s.pending[before as int].time_sent, s.ack_deadline),
    ensures
        ({
            let (after, message) = s.pull(log, now);
            &&& after.cursor == s.cursor.advance(log).0
            &&& after.pending.len() > 0
            &&& after.pending[0] == s.pending[before as int]
            &&& message matches Some(m) ==> m.tries == 1 && s.cursor.advance(log).1 is Some
        }),
{
    lemma_passes(s, log, now, before);
    let passed = s.pass(log, before);
    assert(passed.pending[0] == s.pending[before as int]);
    lemma_head_waits(passed, log, now);
}

/// The scan for a due delivery does not find due a delivery of a message that
/// the subscription is done with, and leaves the subscription done with it.
pub proof fn lemma_check_pending_done_with(s: SubscriptionView, log: LogView<Envelope>, now: Timestamp, id: u128)
    requires
        s.wf(log),
        s.done_with(log, id),
    ensures
        s.check_pending(log, now).0.done_with(log, id),
        s.check_pending(log, now).1 matches Some(record) ==> record.message_id != id,
    decreases s.pending.len(),
{
    if s.pending.len() > 0 {
        let head = s.pending[0];
        let rest = s.without_head();
        assert(head.wf(log));
        assert(recorded(s.pending, head.message_id, 0));
        let next = match head.index.resolve(log) {
            None => SubscriptionView {
                pending_ids: rest.pending_ids.remove(head.message_id),
                acked: rest.acked.remove(head.message_id),
                ..rest
            },
            Some(seq) => SubscriptionView { acked: rest.acked.remove(log.get(seq as int).id), ..rest },
        };
        let passed = head.index.resolve(log) is None || s.acked.contains(head.message_id);
        let left = if passed {
            next
        } else {
            rest
        };
        // What is left on record was on record before, one place further back.
        assert forall|i: int| recorded(left.pending, id, i) implies recorded(s.pending, id, i + 1) by {}
        assert forall|i: int| 0 <= i < left.pending.len() implies (#[trigger] left.pending[i]).wf(log) by {
            assert(left.pending[i] == s.pending[i + 1]);
        }
        if head.message_id == id {
            assert(passed);
            assert forall|i: int| !recorded(left.pending, id, i) by {
                if recorded(left.pending, id, i) {
                    assert(recorded(s.pending, id, i + 1));
                }
            }
        }
        assert(left.once_on_record(id)) by {
            assert forall|i: int, j: int|
                recorded(left.pending, id, i) && recorded(left.pending, id, j) implies i == j by {
                assert(recorded(s.pending, id, i + 1) && recorded(s.pending, id, j + 1));
            }
        }
        assert forall|i: int| #[trigger] recorded(left.pending, id, i) implies left.acked.contains(id)
            || left.pending[i].index.resolve(log) is None by {
            assert(recorded(s.pending, id, i + 1));
            assert(left.pending[i] == s.pending[i + 1]);
        }
        assert(left.none_ahead(log, id)) by {
            assert forall|seq: int| #[trigger] left.ahead(log, seq) implies log.get(seq).id != id by {
                assert(s.ahead(log, seq));
            }
        }
        if passed {
            lemma_check_pending_done_with(next, log, now, id);
        }
    }
}

/// A pull does not hand out a message that the subscription is done with, and
/// leaves the subscription done with it: such a message is never handed out
/// again, whatever time passes.
pub proof fn lemma_done_with_is_not_delivered(s: SubscriptionView, log: LogView<Envelope>, now: Timestamp, id: u128)
    requires
        s.wf(log),
        log.end() <= usize::MAX,
        s.done_with(log, id),
    ensures
        s.pull(log, now).1 matches Some(message) ==> message.id != id,
        s.pull(log, now).0.done_with(log, id),
        s.pull(log, now).0.wf(log),
{
    let touched = s.touch(now);
    assert(touched.done_with(log, id)) by {
        assert forall|seq: int| #[trigger] touched.ahead(log, seq) implies log.get(seq).id != id by {
            assert(s.ahead(log, seq));
        }
    }
    lemma_check_pending_done_with(touched, log, now, id);
    lemma_check_pending_due(touched, log, now);
    lemma_check_pending_frame(touched, log, now);
    lemma_pull_wf(s, log, now);
    let (scanned, due) = touched.check_pending(log, now);
    let (after, message) = s.pull(log, now);
    match due {
        Some(record) => {
            let envelope = log.get(record.index.at->0 as int);
            assert(envelope.id == record.message_id);
            assert forall|i: int| recorded(after.pending, id, i) implies recorded(scanned.pending, id, i) by {}
            assert(after.once_on_record(id)) by {
                assert forall|i: int, j: int|
                    recorded(after.pending, id, i) && recorded(after.pending, id, j) implies i == j by {
                    assert(recorded(scanned.pending, id, i) && recorded(scanned.pending, id, j));
                }
            }
            assert forall|i: int| #[trigger] recorded(after.pending, id, i) implies after.acked.contains(id)
                || after.pending[i].index.resolve(log) is None by {
                assert(recorded(scanned.pending, id, i));
            }
            assert(after.none_ahead(log, id)) by {
                assert forall|seq: int| #[trigger] after.ahead(log, seq) implies log.get(seq).id != id by {
                    assert(scanned.ahead(log, seq));
                }
            }
        },
        None => {
            let (cursor, reached) = scanned.cursor.advance(log);
            assert forall|seq: int| #[trigger] after.ahead(log, seq) implies scanned.ahead(log, seq) by {}
            if let Some(seq) = reached {
                assert(scanned.ahead(log, seq as int));
            }
            assert forall|i: int| recorded(after.pending, id, i) implies recorded(scanned.pending, id, i) by {}
            assert(after.once_on_record(id)) by {
                assert forall|i: int, j: int|
                    recorded(after.pending, id, i) && recorded(after.pending, id, j) implies i == j by {
                    assert(recorded(scanned.pending, id, i) && recorded(scanned.pending, id, j));
                }
            }
            assert forall|i: int| #[trigger] recorded(after.pending, id, i) implies after.acked.contains(id)
                || after.pending[i].index.resolve(log) is None by {
                assert(recorded(scanned.pending, id, i));
            }
            assert(after.none_ahead(log, id)) by {
                assert forall|seq: int| #[trigger] after.ahead(log, seq) implies log.get(seq).id != id by {
                    assert(scanned.ahead(log, seq));
                }
            }
        },
    }
}

/// An acknowledgement, of whatever message, leaves the subscription done with
/// a message that it is done with.
pub proof fn lemma_ack_keeps_done_with(
    s: SubscriptionView,
    log: LogView<Envelope>,
    other: u128,
    now: Timestamp,
    id: u128,
)
    requires
        s.done_with(log, id),
    ensures
        s.ack(other, now).done_with(log, id),
        !s.accepts(id),
{
    let after = s.ack(other, now);
    assert(after.once_on_record(id)) by {
        assert forall|i: int, j: int|
            recorded(after.pending, id, i) && recorded(after.pending, id, j) implies i == j by {
            assert(recorded(s.pending, id, i) && recorded(s.pending, id, j));
        }
    }
    assert forall|i: int| #[trigger] recorded(after.pending, id, i) implies after.acked.contains(id)
        || after.pending[i].index.resolve(log) is None by {
        assert(recorded(s.pending, id, i));
    }
    assert(after.none_ahead(log, id)) by {
        assert forall|seq: int| #[trigger] after.ahead(log, seq) implies log.get(seq).id != id by {
            assert(s.ahead(log, seq));
        }
    }
}

/// What happens to the log leaves the subscription done with a message that
/// it is done with, as long as no message is published under the identifier
/// again.
pub proof fn lemma_log_keeps_done_with(
    s: SubscriptionView,
    log: LogView<Envelope>,
    later: LogView<Envelope>,
    id: u128,
)
    requires
        s.wf(log),
        s.done_with(log, id),
        later.extends(log),
        forall|seq: int| later.is_live(seq) && seq >= log.end() ==> (#[trigger] later.get(seq)).id != id,
    ensures
        s.done_with(later, id),
{
    assert forall|i: int| #[trigger] recorded(s.pending, id, i) implies s.acked.contains(id)
        || s.pending[i].index.resolve(later) is None by {
        assert(s.pending[i].wf(log));
    }
    assert(s.none_ahead(later, id)) by {
        assert forall|seq: int| #[trigger] s.ahead(later, seq) implies later.get(seq).id != id by {
            if seq < log.end() {
                assert(s.ahead(log, seq));
                assert(later.get(seq) == log.get(seq));
            }
        }
    }
}

/// Once the one delivery of a message that is on record is acknowledged, the
/// subscription is done with the message, provided no other message with the
/// same identifier is ahead of the cursor: by the three laws above the
/// message is not handed out again, whatever time passes.
pub proof fn lemma_acked_is_done_with(s: SubscriptionView, log: LogView<Envelope>, id: u128, now: Timestamp)
    requires
        s.accepts(id),
        s.once_on_record(id),
        s.none_ahead(log, id),
    ensures
        s.ack(id, now).done_with(log, id),
{
    let after = s.ack(id, now);
    assert(after.once_on_record(id)) by {
        assert forall|i: int, j: int|
            recorded(after.pending, id, i) && recorded(after.pending, id, j) implies i == j by {
            assert(recorded(s.pending, id, i) && recorded(s.pending, id, j));
        }
    }
    assert(after.none_ahead(log, id)) by {
        assert forall|seq: int| #[trigger] after.ahead(log, seq) implies log.get(seq).id != id by {
            assert(s.ahead(log, seq));
        }
    }
}

/// Once the one delivery of a message that is on record is found to be of a
/// message that has left the log, and forgotten, the subscription is done
/// with the message, provided no other message with the same identifier is
/// ahead of the cursor: the message is not handed out again, and no
/// acknowledgement of it is accepted.
pub proof fn lemma_expired_is_done_with(s: SubscriptionView, log: LogView<Envelope>)
    requires
        s.pending.len() > 0,
        s.pending[0].index.resolve(log) is None,
        s.once_on_record(s.pending[0].message_id),
        s.none_ahead(log, s.pending[0].message_id),
    ensures
        s.forget_head().done_with(log, s.pending[0].message_id),
{
    let id = s.pending[0].message_id;
    let after = s.forget_head();
    assert(recorded(s.pending, id, 0));
    assert forall|i: int| !recorded(after.pending, id, i) by {
        if recorded(after.pending, id, i) {
            assert(recorded(s.pending, id, i + 1));
        }
    }
    assert(after.none_ahead(log, id)) by {
        assert forall|seq: int| #[trigger] after.ahead(log, seq) implies log.get(seq).id != id by {
            assert(s.ahead(log, seq));
        }
    }
}

/// A pull that hands out a message records the delivery behind all others,
/// with the tries that the message carries, and an acknowledgement of the
/// message is accepted from then on. The tries are 1 for a message that the
/// cursor stepped onto, and the tries of the delivery on record, counted up,
/// for a message that is handed out again: the deliveries of a message carry
/// 1, 2, 3 and so on, until the count is full.
pub proof fn lemma_pull_records_delivery(s: SubscriptionView, log: LogView<Envelope>, now: Timestamp)
    requires
        s.wf(log),
    ensures
        ({
            let (after, message) = s.pull(log, now);
            let due = s.touch(now).check_pending(log, now).1;
            match message {
                Some(m) => {
                    &&& after.pending.len() > 0
                    &&& after.pending.last().message_id == m.id
                    &&& after.pending.last().tries == m.tries
                    &&& after.pending.last().time_sent == now
                    &&& after.accepts(m.id)
                    &&& m.tries >= 1
                    &&& match due {
                        Some(record) => {
                            &&& s.pending.contains(record)
                            &&& record.message_id == m.id
                            &&& m.tries == next_try(record.tries)
                            &&& after.pending.last().index == record.index
                            &&& after.cursor == s.cursor
                        },
                        None => m.tries == 1 && s.cursor.advance(log).1 is Some,
                    }
                },
                None => due is None && s.cursor.advance(log).1 is None,
            }
        }),
{
    let touched = s.touch(now);
    lemma_check_pending_due(touched, log, now);
    lemma_check_pending_frame(touched, log, now);
}

/// A pull skips no message: every message that was ahead of the cursor either
/// is the one that the pull hands out on its first try, or is still ahead of
/// the cursor afterwards. And what a pull hands out on its first try is the
/// oldest message that was ahead of the cursor.
pub proof fn lemma_pull_skips_nothing(s: SubscriptionView, log: LogView<Envelope>, now: Timestamp)
    requires
        s.wf(log),
        log.end() <= usize::MAX,
    ensures
        ({
            let (after, message) = s.pull(log, now);
            forall|seq: int| #[trigger]
                s.ahead(log, seq) ==> after.ahead(log, seq) || {
                    &&& message == Some(Message::of(log.get(seq), 1))
                    &&& after.pending.len() > 0
                    &&& after.pending.last().index.at == Some(seq as usize)
                    &&& forall|other: int| s.ahead(log, other) ==> other >= seq
                }
        }),
{
    let touched = s.touch(now);
    lemma_check_pending_frame(touched, log, now);
    let (scanned, due) = touched.check_pending(log, now);
    let (after, message) = s.pull(log, now);
    assert forall|seq: int| #[trigger] s.ahead(log, seq) implies after.ahead(log, seq) || {
        &&& message == Some(Message::of(log.get(seq), 1))
        &&& after.pending.len() > 0
        &&& after.pending.last().index.at == Some(seq as usize)
        &&& forall|other: int| s.ahead(log, other) ==> other >= seq
    } by {
        assert(scanned.ahead(log, seq));
        if due is None {
            crate::commit_log::lemma_advance_skips_nothing(scanned.cursor, log);
        }
    }
}

/// An acknowledgement is accepted once: after the message `id` was
/// acknowledged, or was not accepted, another acknowledgement of `id` is not
/// accepted.
pub proof fn lemma_ack_once(s: SubscriptionView, id: u128, first: Timestamp)
    ensures
        !s.ack(id, first).accepts(id),
{
}

/// The subscription has one delivery on record, `record`, which nothing has
/// happened to since it was made, and no message that it has not handed out.
pub open spec fn awaits(s: SubscriptionView, log: LogView<Envelope>, record: PendingMessage) -> bool {
    &&& s.wf(log)
    &&& s.pending == seq![record]
    &&& s.pending_ids == set![record.message_id]
    &&& s.acked == Set::<u128>::empty()
    &&& s.cursor.advance(log).1 is None
}

/// The delivery on record was acknowledged: the message is not handed out
/// again, and the next pull clears the record.
pub proof fn lemma_acked_is_not_redelivered(
    s: SubscriptionView,
    log: LogView<Envelope>,
    record: PendingMessage,
    acked_at: Timestamp,
    now: Timestamp,
)
    requires
        awaits(s, log, record),
    ensures
        s.accepts(record.message_id),
        ({
            let (after, message) = s.ack(record.message_id, acked_at).pull(log, now);
            &&& message is None
            &&& after.pending.len() == 0
            &&& after.pending_ids == Set::<u128>::empty()
            &&& after.acked == Set::<u128>::empty()
        }),
{
    let acked = s.ack(record.message_id, acked_at);
    let touched = acked.touch(now);
    assert(acked.pending_ids =~= Set::<u128>::empty());
    assert(record.wf(log));
    let rest = touched.without_head();
    assert(rest.pending =~= Seq::<PendingMessage>::empty());
    let dropped = match record.index.resolve(log) {
        None => SubscriptionView {
            pending_ids: rest.pending_ids.remove(record.message_id),
            acked: rest.acked.remove(record.message_id),
            ..rest
        },
        Some(seq) => SubscriptionView { acked: rest.acked.remove(log.get(seq as int).id), ..rest },
    };
    assert(touched.check_pending(log, now) == dropped.check_pending(log, now));
    assert(dropped.check_pending(log, now) == (dropped, None::<PendingMessage>));
    assert(dropped.acked =~= Set::<u128>::empty());
    assert(dropped.pending_ids =~= Set::<u128>::empty());
}

/// The delivery on record was not acknowledged and its message is still in
/// the log: a pull before the ack deadline has passed hands out nothing and
/// leaves the record; a pull after it hands the message out again, with its
/// tries counted up, and records the new delivery in place of the old.
pub proof fn lemma_unacked_is_redelivered(
    s: SubscriptionView,
    log: LogView<Envelope>,
    record: PendingMessage,
    now: Timestamp,
)
    requires
        awaits(s, log, record),
        record.index.resolve(log) is Some,
    ensures
        ({
            let (after, message) = s.pull(log, now);
            let envelope = log.get(record.index.at->0 as int);
            if elapsed_within(now, record.time_sent, s.ack_deadline) {
                &&& message is None
                &&& after == s.touch(now)
            } else {
                &&& message == Some(Message::of(envelope, next_try(record.tries)))
                &&& envelope.id == record.message_id
                &&& after.pending == seq![
                    PendingMessage {
                        time_sent: now,
                        message_id: record.message_id,
                        tries: next_try(record.tries),
                        index: record.index,
                    },
                ]
                &&& after.pending_ids == s.pending_ids
                &&& after.acked == s.acked
            }
        }),
{
    let touched = s.touch(now);
    let rest = touched.without_head();
    assert(record.wf(log));
    assert(rest.pending =~= Seq::<PendingMessage>::empty());
    let (after, message) = s.pull(log, now);
    if !elapsed_within(now, record.time_sent, s.ack_deadline) {
        assert(touched.check_pending(log, now) == (rest, Some(record)));
        assert(after.pending =~= seq![
            PendingMessage {
                time_sent: now,
                message_id: record.message_id,
                tries: next_try(record.tries),
                index: record.index,
            },
        ]);
        assert(after.pending_ids =~= s.pending_ids);
    }
}

/// The message of the delivery on record has left the log: the next pull
/// hands out nothing and forgets the delivery, so that no acknowledgement of
/// it is accepted any more.
pub proof fn lemma_expired_is_dropped(
    s: SubscriptionView,
    log: LogView<Envelope>,
    record: PendingMessage,
    now: Timestamp,
)
    requires
        awaits(s, log, record),
        record.index.resolve(log) is None,
    ensures
        ({
            let (after, message) = s.pull(log, now);
            &&& message is None
            &&& after.pending.len() == 0
            &&& after.pending_ids == Set::<u128>::empty()
            &&& !after.accepts(record.message_id)
        }),
{
    let touched = s.touch(now);
    let rest = touched.without_head();
    assert(rest.pending =~= Seq::<PendingMessage>::empty());
    let dropped = SubscriptionView {
        pending_ids: rest.pending_ids.remove(record.message_id),
        acked: rest.acked.remove(record.message_id),
        ..rest
    };
    assert(touched.check_pending(log, now) == dropped.check_pending(log, now));
    assert(dropped.check_pending(log, now) == (dropped, None::<PendingMessage>));
    assert(dropped.pending_ids =~= Set::<u128>::empty());
}

/// A subscription starts with its books in order.
pub proof fn lemma_fresh_accounted(
    name: Seq<char>,
    topic: Seq<char>,
    ack_deadline: Duration,
    ttl: Duration,
    cursor: CursorView,
    now: Timestamp,
)
    ensures
        SubscriptionView::fresh(name, topic, ack_deadline, ttl, cursor, now).accounted(),
{
}

/// An acknowledgement keeps the books in order.
pub proof fn lemma_ack_accounted(s: SubscriptionView, id: u128, now: Timestamp)
    requires
        s.accounted(),
    ensures
        s.ack(id, now).accounted(),
{
    let after = s.ack(id, now);
    assert forall|other: u128| #[trigger] accounts_for(
        after.pending,
        after.pending_ids,
        after.acked,
        other,
    ) by {
        assert(accounts_for(s.pending, s.pending_ids, s.acked, other));
        if after.pending_ids.contains(other) || after.acked.contains(other) {
            let i = choose|i: int| recorded(s.pending, other, i);
            assert(recorded(after.pending, other, i));
        }
        if after.pending_ids.contains(other) && after.acked.contains(other) {
            let (i, j) = choose|i: int, j: int|
                i < j && recorded(s.pending, other, i) && recorded(s.pending, other, j);
            assert(recorded(after.pending, other, i) && recorded(after.pending, other, j));
        }
    }
}

/// Taking the oldest delivery off the record keeps the books in order for a
/// message, provided that the delivery is of another message, or that the
/// message is left on one side of the books at most and has another delivery
/// on record if it is left on one.
proof fn lemma_without_head_accounts(s: SubscriptionView, after: SubscriptionView, id: u128)
    requires
        s.pending.len() > 0,
        accounts_for(s.pending, s.pending_ids, s.acked, id),
        after.pending == s.pending.skip(1),
        after.pending_ids.subset_of(s.pending_ids),
        after.acked.subset_of(s.acked),
        s.pending[0].message_id == id ==> {
            &&& !(after.pending_ids.contains(id) && after.acked.contains(id))
            &&& after.pending_ids.contains(id) || after.acked.contains(id) ==> twice_on_record(s.pending, id)
        },
    ensures
        accounts_for(after.pending, after.pending_ids, after.acked, id),
{
    if after.pending_ids.contains(id) || after.acked.contains(id) {
        if s.pending[0].message_id == id {
            let (i, j) = choose|i: int, j: int|
                i < j && recorded(s.pending, id, i) && recorded(s.pending, id, j);
            assert(recorded(after.pending, id, j - 1));
        } else {
            let i = choose|i: int| recorded(s.pending, id, i);
            assert(recorded(after.pending, id, i - 1));
            if after.pending_ids.contains(id) && after.acked.contains(id) {
                let (i, j) = choose|i: int, j: int|
                    i < j && recorded(s.pending, id, i) && recorded(s.pending, id, j);
                assert(recorded(after.pending, id, i - 1) && recorded(after.pending, id, j - 1));
            }
        }
    }
}

/// The scan for a due delivery keeps the books in order, but for the message
/// of the delivery that it finds due: that message was not acknowledged, and
/// its delivery is off the record until it is delivered again.
pub proof fn lemma_check_pending_accounted(s: SubscriptionView, log: LogView<Envelope>, now: Timestamp)
    requires
        s.wf(log),
        s.accounted(),
    ensures
        ({
            let (after, due) = s.check_pending(log, now);
            match due {
                Some(record) => {
                    &&& !after.acked.contains(record.message_id)
                    &&& forall|id: u128|
                        id != record.message_id ==> #[trigger] accounts_for(
                            after.pending,
                            after.pending_ids,
                            after.acked,
                            id,
                        )
                },
                None => after.accounted(),
            }
        }),
    decreases s.pending.len(),
{
    if s.pending.len() > 0 {
        let head = s.pending[0];
        let rest = s.without_head();
        assert(head.wf(log));
        assert(recorded(s.pending, head.message_id, 0));
        match head.index.resolve(log) {
            None => {
                let next = SubscriptionView {
                    pending_ids: rest.pending_ids.remove(head.message_id),
                    acked: rest.acked.remove(head.message_id),
                    ..rest
                };
                assert forall|id: u128| #[trigger] accounts_for(
                    next.pending,
                    next.pending_ids,
                    next.acked,
                    id,
                ) by {
                    assert(accounts_for(s.pending, s.pending_ids, s.acked, id));
                    lemma_without_head_accounts(s, next, id);
                }
                assert forall|i: int| 0 <= i < next.pending.len() implies (#[trigger] next.pending[i]).wf(log) by {
                    assert(next.pending[i] == s.pending[i + 1]);
                }
                lemma_check_pending_accounted(next, log, now);
            },
            Some(seq) => {
                let id = log.get(seq as int).id;
                assert(id == head.message_id);
                if s.acked.contains(id) {
                    let next = SubscriptionView { acked: rest.acked.remove(id), ..rest };
                    assert forall|other: u128| #[trigger] accounts_for(
                        next.pending,
                        next.pending_ids,
                        next.acked,
                        other,
                    ) by {
                        assert(accounts_for(s.pending, s.pending_ids, s.acked, other));
                        lemma_without_head_accounts(s, next, other);
                    }
                    assert forall|i: int| 0 <= i < next.pending.len() implies (#[trigger] next.pending[i]).wf(
                        log,
                    ) by {
                        assert(next.pending[i] == s.pending[i + 1]);
                    }
                    lemma_check_pending_accounted(next, log, now);
                } else if !elapsed_within(now, head.time_sent, s.ack_deadline) {
                    assert forall|other: u128| other != head.message_id implies #[trigger] accounts_for(
                        rest.pending,
                        rest.pending_ids,
                        rest.acked,
                        other,
                    ) by {
                        assert(accounts_for(s.pending, s.pending_ids, s.acked, other));
                        lemma_without_head_accounts(s, rest, other);
                    }
                }
            },
        }
    }
}

/// Handing a message out keeps the books in order for every message for
/// which they were in order, and puts them in order for the message handed
/// out if that was not acknowledged or has a delivery on record.
proof fn lemma_deliver_accounts(
    s: SubscriptionView,
    id: u128,
    tries: u32,
    index: Index,
    now: Timestamp,
    other: u128,
)
    requires
        other != id ==> accounts_for(s.pending, s.pending_ids, s.acked, other),
        other == id ==> (s.acked.contains(id) ==> on_record(s.pending, id)),
    ensures
        accounts_for(
            s.deliver(id, tries, index, now).pending,
            s.deliver(id, tries, index, now).pending_ids,
            s.deliver(id, tries, index, now).acked,
            other,
        ),
{
    let after = s.deliver(id, tries, index, now);
    let last = s.pending.len() as int;
    assert(recorded(after.pending, id, last));
    if other == id {
        if s.acked.contains(id) {
            let i = choose|i: int| recorded(s.pending, id, i);
            assert(recorded(after.pending, id, i) && recorded(after.pending, id, last));
        }
    } else {
        if after.pending_ids.contains(other) || after.acked.contains(other) {
            let i = choose|i: int| recorded(s.pending, other, i);
            assert(recorded(after.pending, other, i));
        }
        if after.pending_ids.contains(other) && after.acked.contains(other) {
            let (i, j) = choose|i: int, j: int|
                i < j && recorded(s.pending, other, i) && recorded(s.pending, other, j);
            assert(recorded(after.pending, other, i) && recorded(after.pending, other, j));
        }
    }
}

/// A pull keeps the books in order.
pub proof fn lemma_pull_accounted(s: SubscriptionView, log: LogView<Envelope>, now: Timestamp)
    requires
        s.wf(log),
        s.accounted(),
    ensures
        s.pull(log, now).0.accounted(),
{
    let touched = s.touch(now);
    lemma_check_pending_accounted(touched, log, now);
    lemma_check_pending_due(touched, log, now);
    let (scanned, due) = touched.check_pending(log, now);
    let after = s.pull(log, now).0;
    match due {
        Some(record) => {
            let envelope = log.get(record.index.at->0 as int);
            assert(envelope.id == record.message_id);
            assert forall|id: u128| #[trigger] accounts_for(
                after.pending,
                after.pending_ids,
                after.acked,
                id,
            ) by {
                if id != envelope.id {
                    assert(accounts_for(scanned.pending, scanned.pending_ids, scanned.acked, id));
                }
                lemma_deliver_accounts(scanned, envelope.id, next_try(record.tries), record.index, now, id);
            }
        },
        None => {
            let (cursor, reached) = scanned.cursor.advance(log);
            let moved = SubscriptionView { cursor, ..scanned };
            if let Some(seq) = reached {
                let envelope = log.get(seq as int);
                assert forall|id: u128| #[trigger] accounts_for(
                    after.pending,
                    after.pending_ids,
                    after.acked,
                    id,
                ) by {
                    assert(accounts_for(moved.pending, moved.pending_ids, moved.acked, id));
                    assert(accounts_for(moved.pending, moved.pending_ids, moved.acked, envelope.id));
                    lemma_deliver_accounts(moved, envelope.id, 1, Index { at: Some(seq as usize) }, now, id);
                }
            }
        },
    }
}

/// The scan for a due delivery over a log in which nothing is live finds
/// none, empties the record, and touches nothing but the record and the
/// identifiers.
pub proof fn lemma_check_pending_gone(s: SubscriptionView, log: LogView<Envelope>, now: Timestamp)
    requires
        log.items.len() == 0,
    ensures
        s.check_pending(log, now).1 is None,
        s.check_pending(log, now).0.pending.len() == 0,
    decreases s.pending.len(),
{
    if s.pending.len() > 0 {
        let head = s.pending[0];
        let rest = s.without_head();
        let next = SubscriptionView {
            pending_ids: rest.pending_ids.remove(head.message_id),
            acked: rest.acked.remove(head.message_id),
            ..rest
        };
        lemma_check_pending_gone(next, log, now);
    }
}

/// The scan for a due delivery keeps the books in order when it finds none
/// due, whatever the log.
proof fn lemma_check_pending_gone_accounted(s: SubscriptionView, log: LogView<Envelope>, now: Timestamp)
    requires
        log.items.len() == 0,
        s.accounted(),
    ensures
        s.check_pending(log, now).0.accounted(),
    decreases s.pending.len(),
{
    if s.pending.len() > 0 {
        let head = s.pending[0];
        let rest = s.without_head();
        let next = SubscriptionView {
            pending_ids: rest.pending_ids.remove(head.message_id),
            acked: rest.acked.remove(head.message_id),
            ..rest
        };
        assert(recorded(s.pending, head.message_id, 0));
        assert forall|id: u128| #[trigger] accounts_for(next.pending, next.pending_ids, next.acked, id) by {
            assert(accounts_for(s.pending, s.pending_ids, s.acked, id));
            lemma_without_head_accounts(s, next, id);
        }
        lemma_check_pending_gone_accounted(next, log, now);
    }
}

/// What a pull makes of a subscription whose topic is gone: it is touched,
/// nothing stays on record, its settings and its cursor stay as they are, no
/// identifier is added, and with its books in order before, they are in order
/// afterwards and no acknowledgement is accepted any more.
pub proof fn lemma_pull_orphaned(s: SubscriptionView, now: Timestamp)
    ensures
        ({
            let after = s.pull_orphaned(now);
            &&& after.name == s.name
            &&& after.topic == s.topic
            &&& after.ack_deadline == s.ack_deadline
            &&& after.ttl == s.ttl
            &&& after.created == s.created
            &&& after.updated == now
            &&& after.cursor == s.cursor
            &&& after.orphaned == s.orphaned
            &&& after.pending.len() == 0
            &&& after.pending_ids.subset_of(s.pending_ids)
            &&& after.acked.subset_of(s.acked)
            &&& s.accounted() ==> {
                &&& after.accounted()
                &&& after.pending_ids == Set::<u128>::empty()
                &&& after.acked == Set::<u128>::empty()
            }
        }),
{
    let gone = LogView::<Envelope> { dropped: 0, items: Seq::empty() };
    let touched = s.touch(now);
    let after = s.pull_orphaned(now);
    lemma_check_pending_frame(touched, gone, now);
    lemma_check_pending_gone(touched, gone, now);
    if s.accounted() {
        lemma_check_pending_gone_accounted(touched, gone, now);
        assert forall|id: u128| !after.pending_ids.contains(id) && !after.acked.contains(id) by {
            assert(accounts_for(after.pending, after.pending_ids, after.acked, id));
            if after.pending_ids.contains(id) || after.acked.contains(id) {
                let i = choose|i: int| recorded(after.pending, id, i);
            }
        }
        assert(after.pending_ids =~= Set::<u128>::empty());
        assert(after.acked =~= Set::<u128>::empty());
    }
}

/// A subscription used to subscribe to a topic.
#[derive(Debug)]
pub struct Subscription {
    /// Unique name for this subscription.
    pub name: String,
    /// Topic name the subscription is subscribed to.
    pub topic: String,
    /// Amount of time given to ack a message.
    pub ack_deadline: Duration,
    /// Time to live of the subscription.
    pub ttl: Duration,
    /// Time the subscription was created.
    pub created: Timestamp,
    /// Time the subscription was last updated.
    pub updated: Timestamp,
    pub(crate) cursor: Cursor,
    pub(crate) pending: VecDeque<PendingMessage>,
    pub(crate) pending_ids: HashSet<u128>,
    pub(crate) acked: HashSet<u128>,
    pub(crate) orphaned: bool,
}

impl View for Subscription {
    type V = SubscriptionView;

    open(crate) spec fn view(&self) -> SubscriptionView {
        SubscriptionView {
            name: self.name@,
            topic: self.topic@,
            ack_deadline: self.ack_deadline,
            ttl: self.ttl,
            created: self.created,
            updated: self.updated,
            cursor: self.cursor@,
            pending: self.pending@,
            pending_ids: self.pending_ids@,
            acked: self.acked@,
            orphaned: self.orphaned,
        }
    }
}

impl Subscription {
    /// Create a new subscription at the head (beginning) of the topic, stamped
    /// with the current time.
    pub fn new_head(name: &str, topic: &Topic, ack_deadline: Duration, ttl: Duration) -> (s: Self)
        ensures
            s@ == SubscriptionView::fresh(
                name@,
                topic@.name,
                ack_deadline,
                ttl,
                CursorView::at_head(topic@.log),
                s@.created,
            ),
            s@.wf(topic@.log),
            s@.accounted(),
    {
        Subscription::new_head_at(name, topic, ack_deadline, ttl, now())
    }

    /// Create a new subscription at the head (beginning) of the topic, stamped
    /// with `now`. Its first pull reaches the oldest message of the topic.
    pub fn new_head_at(name: &str, topic: &Topic, ack_deadline: Duration, ttl: Duration, now: Timestamp) -> (s:
        Self)
        ensures
            s@ == SubscriptionView::fresh(
                name@,
                topic@.name,
                ack_deadline,
                ttl,
                CursorView::at_head(topic@.log),
                now,
            ),
            s@.wf(topic@.log),
            s@.accounted(),
    {
        Subscription {
            name: name.to_owned(),
            topic: topic.name.clone(),
            ack_deadline,
            ttl,
            created: now,
            updated: now,
            cursor: Cursor::new_head(&topic.log),
            pending: VecDeque::new(),
            pending_ids: HashSet::new(),
            acked: HashSet::new(),
            orphaned: false,
        }
    }

    /// Create a new subscription at the tail (end) of the topic, stamped with
    /// the current time.
    pub fn new_tail(name: &str, topic: &Topic, ack_deadline: Duration, ttl: Duration) -> (s: Self)
        requires
            topic.wf(),
        ensures
            s@ == SubscriptionView::fresh(
                name@,
                topic@.name,
                ack_deadline,
                ttl,
                CursorView::at_tail(topic@.log),
                s@.created,
            ),
            s@.wf(topic@.log),
            s@.accounted(),
    {
        Subscription::new_tail_at(name, topic, ack_deadline, ttl, now())
    }

    /// Create a new subscription at the tail (end) of the topic, stamped with
    /// `now`. Its first pull reaches the first message published from now on.
    pub fn new_tail_at(name: &str, topic: &Topic, ack_deadline: Duration, ttl: Duration, now: Timestamp) -> (s:
        Self)
        requires
            topic.wf(),
        ensures
            s@ == SubscriptionView::fresh(
                name@,
                topic@.name,
                ack_deadline,
                ttl,
                CursorView::at_tail(topic@.log),
                now,
            ),
            s@.wf(topic@.log),
            s@.accounted(),
    {
        Subscription {
            name: name.to_owned(),
            topic: topic.name.clone(),
            ack_deadline,
            ttl,
            created: now,
            updated: now,
            cursor: Cursor::new_tail(&topic.log),
            pending: VecDeque::new(),
            pending_ids: HashSet::new(),
            acked: HashSet::new(),
            orphaned: false,
        }
    }

    /// Pull a message from `topic`, the topic this subscription was made on,
    /// at the current time.
    ///
    /// If `pull` returns `None` there are no messages to pull. This will try
    /// and return messages that have reached their ack deadline, but have not
    /// been acked, before pulling new messages.
    pub fn pull(&mut self, topic: &Topic) -> (r: Option<Message>)
        requires
            topic.wf(),
            old(self)@.wf(topic@.log),
        ensures
            final(self)@.wf(topic@.log),
            final(self)@ == old(self)@.pull(topic@.log, final(self)@.updated).0,
            r == old(self)@.pull(topic@.log, final(self)@.updated).1,
            old(self)@.accounted() ==> final(self)@.accounted(),
    {
        let now = now();
        proof {
            lemma_pull_frame(self@, topic@.log, now);
        }
        self.pull_at(topic, now)
    }

    /// Pull a message from `topic`, the topic this subscription was made on,
    /// at `now`.
    pub fn pull_at(&mut self, topic: &Topic, now: Timestamp) -> (r: Option<Message>)
        requires
            topic.wf(),
            old(self)@.wf(topic@.log),
        ensures
            final(self)@.wf(topic@.log),
            final(self)@ == old(self)@.pull(topic@.log, now).0,
            r == old(self)@.pull(topic@.log, now).1,
            old(self)@.accounted() ==> final(self)@.accounted(),
    {
        broadcast use group_hash_axioms;

        proof {
            if old(self)@.accounted() {
                lemma_pull_accounted(old(self)@, topic@.log, now);
            }
        }

        self.update_at(now);
        let ghost touched = self@;
        let (envelope, index, tries) = match self.check_pending(&topic.log, now) {
            Some(due) => due,
            None => {
                let ghost scanned = self@;
                match self.cursor.next(&topic.log) {
                    Some(envelope) => (envelope, Index::new(&self.cursor), 1u32),
                    None => {
                        assert(self@ == (SubscriptionView {
                            cursor: scanned.cursor.advance(topic@.log).0,
                            ..scanned
                        }));
                        return None;
                    },
                }
            },
        };
        let ghost before = self@;
        self.pending_ids.insert(envelope.id);
        self.pending.push_back(PendingMessage::new(envelope.id, tries, index, now));
        assert(self@ == before.deliver(envelope.id, tries, index, now));
        assert forall|i: int| 0 <= i < self@.pending.len() implies (#[trigger] self@.pending[i]).wf(
            topic@.log,
        ) by {
            if i < before.pending.len() {
                assert(self@.pending[i] == before.pending[i]);
            }
        }
        Some(Message::deliver(envelope, tries))
    }

    /// Whether the topic of the subscription is gone.
    pub fn is_orphaned(&self) -> (r: bool)
        ensures
            r == self@.orphaned,
    {
        self.orphaned
    }

    /// Records that the topic of the subscription is gone, and the log the
    /// subscription read with it.
    pub fn orphan(&mut self)
        ensures
            final(self)@ == old(self)@.orphan(),
    {
        self.orphaned = true;
    }

    /// Pull from a subscription whose topic is gone, at the current time; see
    /// [`Subscription::pull_orphaned_at`].
    pub fn pull_orphaned(&mut self)
        ensures
            final(self)@ == old(self)@.pull_orphaned(final(self)@.updated),
            old(self)@.accounted() ==> final(self)@.accounted(),
    {
        let now = now();
        proof {
            lemma_pull_orphaned(self@, now);
        }
        self.pull_orphaned_at(now)
    }

    /// Pull from a subscription whose topic is gone, at `now`. Nothing is
    /// handed out: the subscription is touched, every delivery is taken off
    /// the record and its identifier forgotten, and the cursor stays where it
    /// is.
    pub fn pull_orphaned_at(&mut self, now: Timestamp)
        ensures
            final(self)@ == old(self)@.pull_orphaned(now),
            old(self)@.accounted() ==> final(self)@.accounted(),
    {
        proof {
            lemma_pull_orphaned(self@, now);
        }
        let gone: CommitLog<Envelope> = CommitLog::new();
        self.update_at(now);
        let _ = self.check_pending(&gone, now);
    }

    /// Ack the message with `id` at the current time.
    ///
    /// Return true if the ack was successful.
    pub fn ack(&mut self, id: u128) -> (r: bool)
        ensures
            r == old(self)@.accepts(id),
            final(self)@ == old(self)@.ack(id, final(self)@.updated),
            old(self)@.accounted() ==> final(self)@.accounted(),
    {
        self.ack_at(id, now())
    }

    /// Ack the message with `id` at `now`.
    ///
    /// Return true if the ack was successful: if the message was delivered,
    /// and has neither been acked nor been handed out again since.
    pub fn ack_at(&mut self, id: u128, now: Timestamp) -> (r: bool)
        ensures
            r == old(self)@.accepts(id),
            final(self)@ == old(self)@.ack(id, now),
            old(self)@.accounted() ==> final(self)@.accounted(),
    {
        broadcast use group_hash_axioms;

        proof {
            if old(self)@.accounted() {
                lemma_ack_accounted(old(self)@, id, now);
            }
        }

        self.update_at(now);
        if self.pending_ids.remove(&id) {
            self.acked.insert(id);
            true
        } else {
            assert(self@.pending_ids =~= old(self)@.pending_ids);
            false
        }
    }

    /// Ack many message `id`s at the current time.
    ///
    /// Returns all ids which were successfully acked.
    pub fn ack_many(&mut self, ids: &[u128]) -> (acked: Vec<u128>)
        ensures
            acked@ == old(self)@.accepted(ids@, final(self)@.updated),
            ids@.len() > 0 ==> final(self)@ == old(self)@.ack_many(ids@, final(self)@.updated),
            ids@.len() == 0 ==> final(self)@ == old(self)@,
            old(self)@.accounted() ==> final(self)@.accounted(),
    {
        if ids.len() == 0 {
            Vec::new()
        } else {
            let now = now();
            let acked = self.ack_many_at(ids, now);
            proof {
                Self::lemma_ack_many_touches(old(self)@, ids@, now);
            }
            acked
        }
    }

    /// Acknowledging at least one identifier at `now` leaves the subscription
    /// touched at `now`.
    pub proof fn lemma_ack_many_touches(s: SubscriptionView, ids: Seq<u128>, now: Timestamp)
        requires
            ids.len() > 0,
        ensures
            s.ack_many(ids, now).updated == now,
    {
    }

    /// Ack many message `id`s at `now`.
    ///
    /// Returns all ids which were successfully acked, in the order they were
    /// given.
    pub fn ack_many_at(&mut self, ids: &[u128], now: Timestamp) -> (acked: Vec<u128>)
        ensures
            acked@ == old(self)@.accepted(ids@, now),
            final(self)@ == old(self)@.ack_many(ids@, now),
            old(self)@.accounted() ==> final(self)@.accounted(),
    {
        proof {
            lemma_ack_many_frame(old(self)@, ids@, now);
        }
        let mut acked: Vec<u128> = Vec::with_capacity(ids.len());
        let mut i: usize = 0;
        assert(ids@.take(0) =~= Seq::<u128>::empty());
        while i < ids.len()
            invariant
                i <= ids.len(),
                self@ == old(self)@.ack_many(ids@.take(i as int), now),
                acked@ == old(self)@.accepted(ids@.take(i as int), now),
            decreases ids.len() - i,
        {
            let id = ids[i];
            proof {
                let next = ids@.take(i + 1);
                assert(next.drop_last() =~= ids@.take(i as int));
                assert(next.last() == id);
            }
            if self.ack_at(id, now) {
                acked.push(id);
            }
            i = i + 1;
        }
        assert(ids@.take(ids@.len() as int) =~= ids@);
        acked
    }

    /// Set the ack deadline, touching the subscription at the current time.
    pub fn set_ack_deadline(&mut self, ack_deadline: Duration)
        ensures
            final(self)@ == old(self)@.update(Some(ack_deadline), None, final(self)@.updated),
    {
        self.set_ack_deadline_at(ack_deadline, now());
    }

    /// Set the ack deadline, touching the subscription at `now`.
    pub fn set_ack_deadline_at(&mut self, ack_deadline: Duration, now: Timestamp)
        ensures
            final(self)@ == old(self)@.update(Some(ack_deadline), None, now),
    {
        self.update_at(now);
        self.ack_deadline = ack_deadline;
    }

    /// Set the time to live, touching the subscription at the current time.
    pub fn set_ttl(&mut self, ttl: Duration)
        ensures
            final(self)@ == old(self)@.update(None, Some(ttl), final(self)@.updated),
    {
        self.set_ttl_at(ttl, now());
    }

    /// Set the time to live, touching the subscription at `now`.
    pub fn set_ttl_at(&mut self, ttl: Duration, now: Timestamp)
        ensures
            final(self)@ == old(self)@.update(None, Some(ttl), now),
    {
        self.update_at(now);
        self.ttl = ttl;
    }

    /// Set the updated time to the current time.
    pub fn update(&mut self)
        ensures
            final(self)@ == old(self)@.touch(final(self)@.updated),
    {
        self.update_at(now());
    }

    /// Set the updated time to `now`.
    pub fn update_at(&mut self, now: Timestamp)
        ensures
            final(self)@ == old(self)@.touch(now),
    {
        self.updated = now;
    }

    /// Get the index of the element a pull with no pending elements will
    /// retrieve with next: the cursor's count of its position in the topic.
    pub fn next_index(&self) -> (n: usize)
        ensures
            n == self@.cursor.next_index,
    {
        self.cursor.next_index()
    }

    /// Get the number of pending messages: the number of identifiers an
    /// acknowledgement is accepted for.
    pub fn num_pending(&self) -> (n: usize)
        ensures
            n == self@.pending_ids.len(),
    {
        broadcast use group_hash_axioms;

        self.pending_ids.len()
    }

    /// Scans the record for a delivery that is due again at `now` and takes
    /// it off the record. Returns the message with its place in the log and
    /// the tries of the delivery to make.
    fn check_pending(&mut self, log: &CommitLog<Envelope>, now: Timestamp) -> (r: Option<(Envelope, Index, u32)>)
        requires
            log.wf(),
        ensures
            old(self)@.wf(log@) ==> final(self)@.wf(log@),
            final(self)@ == old(self)@.check_pending(log@, now).0,
            match old(self)@.check_pending(log@, now).1 {
                Some(record) => {
                    &&& old(self)@.wf(log@) ==> record.wf(log@)
                    &&& record.index.resolve(log@) is Some
                    &&& r == Some((log@.get(record.index.at->0 as int), record.index, next_try(record.tries)))
                },
                None => r is None,
            },
    {
        broadcast use group_hash_axioms;

        assert(self@.pending =~= old(self)@.pending.skip(0));
        loop
            invariant
                log.wf(),
                old(self)@.wf(log@) ==> self@.wf(log@),
                old(self)@.wf(log@) ==> forall|i: int|
                    0 <= i < old(self)@.pending.len() ==> (#[trigger] old(self)@.pending[i]).wf(log@),
                exists|k: int|
                    0 <= k <= old(self)@.pending.len() && self@.pending == #[trigger] old(self)@.pending.skip(k),
                self@.check_pending(log@, now) == old(self)@.check_pending(log@, now),
            decreases self@.pending.len(),
        {
            let ghost before = self@;
            let pending = match self.pending.pop_front() {
                Some(pending) => pending,
                None => {
                    return None;
                },
            };
            assert(pending == before.pending[0]);
            assert(self@ == before.without_head());
            proof {
                let k = choose|k: int|
                    0 <= k <= old(self)@.pending.len() && before.pending == #[trigger] old(self)@.pending.skip(k);
                assert(self@.pending =~= old(self)@.pending.skip(k + 1));
                assert(pending == old(self)@.pending[k]);
                if old(self)@.wf(log@) {
                    assert forall|i: int| 0 <= i < self@.pending.len() implies (#[trigger] self@.pending[i]).wf(
                        log@,
                    ) by {
                        assert(self@.pending[i] == before.pending[i + 1]);
                    }
                }
            }
            match pending.index.get(log) {
                Some(message) => {
                    if self.acked.remove(&message.id) {
                        assert(self@ == (SubscriptionView {
                            acked: before.without_head().acked.remove(message.id),
                            ..before.without_head()
                        }));
                        continue;
                    }
                    if is_within(&now, &pending.time_sent, &self.ack_deadline) {
                        self.pending.push_front(pending);
                        assert(self@.pending =~= before.pending);
                        assert(self@.pending_ids =~= before.pending_ids);
                        assert(self@.acked =~= before.acked);
                        assert(self@ == before);
                        return None;
                    }
                    assert(self@.acked =~= before.acked);
                    let tries = if pending.tries < u32::MAX {
                        pending.tries + 1
                    } else {
                        u32::MAX
                    };
                    return Some((message, pending.index, tries));
                },
                None => {
                    self.pending_ids.remove(&pending.message_id);
                    self.acked.remove(&pending.message_id);
                    assert(self@ == (SubscriptionView {
                        pending_ids: before.without_head().pending_ids.remove(pending.message_id),
                        acked: before.without_head().acked.remove(pending.message_id),
                        ..before.without_head()
                    }));
                    continue;
                },
            }
        }
    }
}

/// What a [`SubscriptionMeta`] says.
pub struct SubscriptionMetaView {
    pub name: Seq<char>,
    pub topic: Seq<char>,
    pub ack_deadline: int,
    pub ttl: int,
    pub created: Timestamp,
    pub updated: Timestamp,
}

impl SubscriptionMetaView {
    /// The description of `subscription`: its name, the name of its topic,
    /// its ack deadline and time to live in whole seconds, and its timestamps.
    pub open spec fn of(subscription: SubscriptionView) -> SubscriptionMetaView {
        SubscriptionMetaView {
            name: subscription.name,
            topic: subscription.topic,
            ack_deadline: subscription.ack_deadline.whole_seconds(),
            ttl: subscription.ttl.whole_seconds(),
            created: subscription.created,
            updated: subscription.updated,
        }
    }
}

/// A subscription meta type used to describe a subscription to the outside.
#[derive(Debug, PartialEq, Eq, PartialOrd, Ord)]
pub struct SubscriptionMeta {
    /// Unique name for this subscription.
    pub name: String,
    /// Topic name the subscription is subscribed to.
    pub topic: String,
    /// Amount of time given to ack a message in seconds.
    pub ack_deadline: i64,
    /// Time to live of the subscription in seconds.
    pub ttl: i64,
    /// Time the subscription was created.
    pub created: Timestamp,
    /// Time the subscription was last updated.
    pub updated: Timestamp,
}

impl View for SubscriptionMeta {
    type V = SubscriptionMetaView;

    open spec fn view(&self) -> SubscriptionMetaView {
        SubscriptionMetaView {
            name: self.name@,
            topic: self.topic@,
            ack_deadline: self.ack_deadline as int,
            ttl: self.ttl as int,
            created: self.created,
            updated: self.updated,
        }
    }
}

impl Clone for SubscriptionMeta {
    fn clone(&self) -> (meta: Self)
        ensures
            meta == *self,
    {
        SubscriptionMeta {
            name: self.name.clone(),
            topic: self.topic.clone(),
            ack_deadline: self.ack_deadline,
            ttl: self.ttl,
            created: self.created,
            updated: self.updated,
        }
    }
}

impl<'a> FromSpecImpl<&'a Subscription> for SubscriptionMeta {
    open spec fn obeys_from_spec() -> bool {
        true
    }

    closed spec fn from_spec(subscription: &'a Subscription) -> SubscriptionMeta {
        SubscriptionMeta {
            name: subscription.name,
            topic: subscription.topic,
            ack_deadline: subscription.ack_deadline.whole_seconds() as i64,
            ttl: subscription.ttl.whole_seconds() as i64,
            created: subscription.created,
            updated: subscription.updated,
        }
    }
}

impl<'a> From<&'a Subscription> for SubscriptionMeta {
    fn from(subscription: &'a Subscription) -> (meta: SubscriptionMeta)
        ensures
            meta@ == SubscriptionMetaView::of(subscription@),
    {
        SubscriptionMeta {
            name: subscription.name.clone(),
            topic: subscription.topic.clone(),
            ack_deadline: subscription.ack_deadline.num_seconds(),
            ttl: subscription.ttl.num_seconds(),
            created: subscription.created,
            updated: subscription.updated,
        }
    }
}

} // verus!
