//! An append-only log that is truncated from its head.
//!
//! Every element ever appended to a [`CommitLog`] has a sequence number: the
//! count of elements appended before it. The log keeps the elements that have
//! not been dropped yet, oldest first, and the count of those that have. A
//! [`Cursor`] walks the log by sequence number and an [`Index`] names one
//! element; both notice when the element they stand on has been dropped.

use std::collections::VecDeque;
use vstd::prelude::*;

verus! {

/// What a [`CommitLog`] holds: how many elements were dropped from its head,
/// and the live elements, oldest first. The live element `items[i]` has
/// sequence number `dropped + i`.
pub struct LogView<T> {
    pub dropped: nat,
    pub items: Seq<T>,
}

impl<T> LogView<T> {
    /// The sequence number that the next appended element will get.
    pub open spec fn end(self) -> nat {
        self.dropped + self.items.len()
    }

    /// Whether the element with sequence number `seq` is in the log.
    pub open spec fn is_live(self, seq: int) -> bool {
        self.dropped <= seq < self.end()
    }

    /// The live element with sequence number `seq`.
    pub open spec fn get(self, seq: int) -> T
        recommends
            self.is_live(seq),
    {
        self.items[seq - self.dropped]
    }

    /// The log after `value` is appended.
    pub open spec fn append(self, value: T) -> Self {
        LogView { dropped: self.dropped, items: self.items.push(value) }
    }

    /// The log after its `count` oldest elements are dropped.
    pub open spec fn truncate(self, count: nat) -> Self
        recommends
            count <= self.items.len(),
    {
        LogView { dropped: self.dropped + count, items: self.items.skip(count as int) }
    }

    /// Whether `self` can be a later state of `earlier`: nothing dropped comes
    /// back, nothing appended goes missing from the tail, and an element keeps
    /// its sequence number for as long as it lives.
    pub open spec fn extends(self, earlier: Self) -> bool {
        &&& earlier.dropped <= self.dropped
        &&& earlier.end() <= self.end()
        &&& forall|seq: int|
            self.dropped <= seq < earlier.end() ==> #[trigger] self.get(seq) == earlier.get(seq)
    }
}

/// Where a [`Cursor`] stands: on the head of the log, before every element
/// (`held` is `None`), or on the element with sequence number `held`.
/// `next_index` is the cursor's own count of its position in the sequence of
/// everything ever appended.
pub struct CursorView {
    pub held: Option<nat>,
    pub next_index: nat,
}

impl CursorView {
    /// A cursor on the head of `log`, counting from its oldest element.
    pub open spec fn at_head<T>(log: LogView<T>) -> CursorView {
        CursorView { held: None, next_index: log.dropped }
    }

    /// A cursor on the newest element of `log`, or on the head of an empty
    /// `log`.
    pub open spec fn at_tail<T>(log: LogView<T>) -> CursorView {
        if log.items.len() == 0 {
            CursorView::at_head(log)
        } else {
            CursorView { held: Some((log.end() - 1) as nat), next_index: log.end() }
        }
    }

    /// A cursor of `log` stands on the head or on an element that was appended
    /// to `log`, and has not counted past the element it stands on.
    pub open spec fn wf<T>(self, log: LogView<T>) -> bool {
        match self.held {
            None => self.next_index <= log.dropped,
            Some(seq) => seq < log.end() && self.next_index <= seq + 1,
        }
    }

    /// Whether the element the cursor stands on has been dropped.
    pub open spec fn expired<T>(self, log: LogView<T>) -> bool {
        match self.held {
            None => false,
            Some(seq) => seq < log.dropped,
        }
    }

    /// The cursor once it has recovered from a truncation: back on the head,
    /// counting from the first element that is still live.
    pub open spec fn healed<T>(self, log: LogView<T>) -> CursorView {
        if self.expired(log) {
            CursorView { held: None, next_index: log.dropped }
        } else {
            self
        }
    }

    /// The sequence number of the element after the one an unexpired cursor
    /// stands on, if there is one.
    pub open spec fn successor<T>(self, log: LogView<T>) -> Option<nat> {
        match self.held {
            None => if log.items.len() > 0 {
                Some(log.dropped)
            } else {
                None
            },
            Some(seq) => if seq + 1 < log.end() {
                Some(seq + 1)
            } else {
                None
            },
        }
    }

    /// One step of the cursor: where it stands afterwards, and the sequence
    /// number of the element it stepped onto, if it moved.
    pub open spec fn advance<T>(self, log: LogView<T>) -> (CursorView, Option<nat>) {
        let from = self.healed(log);
        match from.successor(log) {
            Some(seq) => (CursorView { held: Some(seq), next_index: from.next_index + 1 }, Some(seq)),
            None => (from, None),
        }
    }

    /// The sequence number of the element a step would reach without first
    /// recovering from a truncation.
    pub open spec fn peek<T>(self, log: LogView<T>) -> Option<nat> {
        if self.expired(log) {
            None
        } else {
            self.successor(log)
        }
    }

    /// The cursor after `steps` steps over a log that does not change.
    pub open spec fn advance_by<T>(self, log: LogView<T>, steps: nat) -> CursorView
        decreases steps,
    {
        if steps == 0 {
            self
        } else {
            self.advance(log).0.advance_by(log, (steps - 1) as nat)
        }
    }
}

/// Appending to a log gives a later state of the log.
pub proof fn lemma_append_extends<T>(log: LogView<T>, value: T)
    ensures
        log.append(value).extends(log),
        log.append(value).end() == log.end() + 1,
{
}

/// Dropping elements from the head of a log gives a later state of the log.
pub proof fn lemma_truncate_extends<T>(log: LogView<T>, count: nat)
    requires
        count <= log.items.len(),
    ensures
        log.truncate(count).extends(log),
        log.truncate(count).end() == log.end(),
{
}

/// An element that was dropped stays dropped: a handle on it names nothing
/// in the log it was dropped from, nor in any later state of that log.
pub proof fn lemma_dropped_stays_dropped<T>(index: Index, log: LogView<T>, later: LogView<T>)
    requires
        index.at matches Some(seq) && seq < log.dropped,
        later.extends(log),
    ensures
        index.resolve(log) is None,
        index.resolve(later) is None,
{
}

/// A cursor made at the head or at the tail of an empty log reaches nothing
/// with its first step.
pub proof fn lemma_empty_log_yields_nothing<T>(log: LogView<T>)
    requires
        log.items.len() == 0,
    ensures
        CursorView::at_head(log).advance(log).1 is None,
        CursorView::at_tail(log).advance(log).1 is None,
        CursorView::at_head(log).peek(log) is None,
        CursorView::at_tail(log).peek(log) is None,
{
}

/// A cursor never counts backwards: a step leaves `next_index` where it was
/// or moves it up.
pub proof fn lemma_advance_counts_up<T>(cursor: CursorView, log: LogView<T>)
    requires
        cursor.wf(log),
    ensures
        cursor.advance(log).0.next_index >= cursor.next_index,
        cursor.advance(log).0.wf(log),
{
}

/// A step of a cursor skips nothing: the element it reaches is the oldest
/// live element that the cursor has not stepped onto yet, and it reaches none
/// only if there is none.
pub proof fn lemma_advance_skips_nothing<T>(cursor: CursorView, log: LogView<T>)
    requires
        cursor.wf(log),
    ensures
        match cursor.advance(log).1 {
            Some(reached) => {
                &&& log.is_live(reached as int)
                &&& cursor.held matches Some(held) ==> reached > held
                &&& forall|seq: int|
                    log.is_live(seq) && (cursor.held matches Some(held) ==> seq > held) ==> seq >= reached
            },
            None => forall|seq: int| log.is_live(seq) ==> (cursor.held matches Some(held) && seq <= held),
        },
{
}

/// A cursor that stands right before the live element `items[from]` reaches
/// `items[from]`, `items[from + 1]`, and so on, one with each step.
pub proof fn lemma_walk<T>(cursor: CursorView, log: LogView<T>, from: nat, steps: nat)
    requires
        from + steps <= log.items.len(),
        !cursor.expired(log),
        cursor.successor(log) == if from < log.items.len() {
            Some(log.dropped + from)
        } else {
            None
        },
    ensures
        steps > 0 ==> cursor.advance_by(log, steps).held == Some((log.dropped + from + steps - 1) as nat),
        cursor.advance_by(log, steps).next_index == cursor.next_index + steps,
        !cursor.advance_by(log, steps).expired(log),
        cursor.advance_by(log, steps).advance(log).1 == if from + steps < log.items.len() {
            Some(log.dropped + from + steps)
        } else {
            None
        },
    decreases steps,
{
    if steps > 0 {
        lemma_walk(cursor.advance(log).0, log, from + 1, (steps - 1) as nat);
    }
}

/// A cursor made at the head of a log reaches every element of the log,
/// oldest first, one with each step, and then nothing: for every `k` up to
/// the length of the log, after `k` steps the next step reaches `items[k]`,
/// or nothing when `k` is the length.
pub proof fn lemma_head_cursor_reaches_all<T>(log: LogView<T>, k: nat)
    requires
        k <= log.items.len(),
    ensures
        CursorView::at_head(log).advance_by(log, k).advance(log).1 == if k < log.items.len() {
            Some(log.dropped + k)
        } else {
            None
        },
        CursorView::at_head(log).advance_by(log, k).next_index == log.dropped + k,
{
    lemma_walk(CursorView::at_head(log), log, 0, k);
}

/// Where `expired` holds of an element only if it holds of every older one,
/// what a cleanup leaves has no element of which `expired` holds: if `count`
/// elements were dropped, all of which `expired` held of, and it does not
/// hold of the oldest that is left, then it holds of none that is left.
pub proof fn lemma_cleanup_leaves_none<T>(items: Seq<T>, expired: spec_fn(T) -> bool, count: nat)
    requires
        count <= items.len(),
        forall|i: int| 0 <= i < count ==> expired(#[trigger] items[i]),
        count < items.len() ==> !expired(items[count as int]),
        forall|i: int, j: int| 0 <= i <= j < items.len() && expired(items[j]) ==> expired(items[i]),
    ensures
        forall|i: int| 0 <= i < items.skip(count as int).len() ==> !expired(#[trigger] items.skip(count as int)[i]),
{
    assert forall|i: int| 0 <= i < items.skip(count as int).len() implies !expired(
        #[trigger] items.skip(count as int)[i],
    ) by {
        if expired(items[count + i]) {
            assert(expired(items[count as int]));
        }
    }
}

/// A log of elements that grows at its tail and is truncated at its head.
#[derive(Debug)]
pub struct CommitLog<T> {
    items: VecDeque<T>,
    dropped: usize,
}

impl<T> View for CommitLog<T> {
    type V = LogView<T>;

    closed spec fn view(&self) -> LogView<T> {
        LogView { dropped: self.dropped as nat, items: self.items@ }
    }
}

impl<T> CommitLog<T> {
    /// Sequence numbers fit the machine word.
    pub open spec fn wf(&self) -> bool {
        self@.end() <= usize::MAX
    }

    /// A log to which nothing has been appended.
    pub fn new() -> (log: Self)
        ensures
            log.wf(),
            log@.dropped == 0,
            log@.items == Seq::<T>::empty(),
    {
        CommitLog { items: VecDeque::new(), dropped: 0 }
    }

    /// Whether the log holds no element.
    pub fn empty(&self) -> (r: bool)
        ensures
            r == (self@.items.len() == 0),
    {
        self.items.len() == 0
    }

    /// The number of elements in the log.
    pub fn len(&self) -> (n: usize)
        ensures
            n == self@.items.len(),
    {
        self.items.len()
    }

    /// The number of elements dropped from the log since it was made.
    pub fn dropped_count(&self) -> (n: usize)
        ensures
            n == self@.dropped,
    {
        self.dropped
    }

    /// Whether one more element can be appended without running out of
    /// sequence numbers.
    pub fn has_room(&self) -> (r: bool)
        requires
            self.wf(),
        ensures
            r == (self@.end() < usize::MAX),
    {
        self.items.len() < usize::MAX - self.dropped
    }

    /// Appends `value` at the tail.
    pub fn append(&mut self, value: T)
        requires
            old(self).wf(),
            old(self)@.end() < usize::MAX,
        ensures
            final(self).wf(),
            final(self)@ == old(self)@.append(value),
    {
        self.items.push_back(value);
    }

    /// Drops elements from the head for as long as `expired` holds of the
    /// oldest one, and returns how many were dropped. It stops at the first
    /// element of which `expired` does not hold, so what is dropped is a
    /// prefix of the log.
    pub fn cleanup<F: Fn(&T) -> bool>(&mut self, expired: F) -> (count: usize)
        requires
            old(self).wf(),
            forall|i: int| 0 <= i < old(self)@.items.len() ==> expired.requires((&#[trigger] old(self)@.items[i],)),
        ensures
            final(self).wf(),
            count <= old(self)@.items.len(),
            final(self)@ == old(self)@.truncate(count as nat),
            forall|i: int| 0 <= i < count ==> expired.ensures((&#[trigger] old(self)@.items[i],), true),
            count < old(self)@.items.len() ==> expired.ensures(
                (&old(self)@.items[count as int],),
                false,
            ),
    {
        let mut count: usize = 0;
        assert(self@.items =~= old(self)@.items.skip(0));
        loop
            invariant
                self.wf(),
                count <= old(self)@.items.len(),
                self@ == old(self)@.truncate(count as nat),
                forall|i: int| 0 <= i < old(self)@.items.len() ==> expired.requires((&#[trigger] old(self)@.items[i],)),
                forall|i: int| 0 <= i < count ==> expired.ensures((&#[trigger] old(self)@.items[i],), true),
            ensures
                self.wf(),
                count <= old(self)@.items.len(),
                self@ == old(self)@.truncate(count as nat),
                forall|i: int| 0 <= i < count ==> expired.ensures((&#[trigger] old(self)@.items[i],), true),
                count < old(self)@.items.len() ==> expired.ensures(
                    (&old(self)@.items[count as int],),
                    false,
                ),
            decreases old(self)@.items.len() - count,
        {
            if self.items.len() == 0 {
                break;
            }
            assert(self@.items[0] == old(self)@.items[count as int]);
            if !expired(&self.items[0]) {
                break;
            }
            self.remove_head();
            count = count + 1;
            assert(self@.items =~= old(self)@.items.skip(count as int));
        }
        count
    }

    /// A cursor on the head of the log; see [`Cursor::new_head`].
    pub fn new_head_cursor(&self) -> (cursor: Cursor)
        ensures
            cursor@ == CursorView::at_head(self@),
            cursor@.wf(self@),
    {
        Cursor::new_head(self)
    }

    /// A cursor on the newest element of the log; see [`Cursor::new_tail`].
    pub fn new_tail_cursor(&self) -> (cursor: Cursor)
        requires
            self.wf(),
        ensures
            cursor@ == CursorView::at_tail(self@),
            cursor@.wf(self@),
    {
        Cursor::new_tail(self)
    }

    /// Drops the oldest element, if there is one.
    fn remove_head(&mut self)
        requires
            old(self).wf(),
        ensures
            final(self).wf(),
            old(self)@.items.len() == 0 ==> final(self)@ == old(self)@,
            old(self)@.items.len() > 0 ==> final(self)@ == old(self)@.truncate(1),
    {
        match self.items.pop_front() {
            Some(_) => {
                self.dropped = self.dropped + 1;
                assert(self.items@ =~= old(self).items@.skip(1));
            },
            None => {},
        }
    }
}

/// A position in a [`CommitLog`] that moves toward its tail.
#[derive(Clone, Copy, Debug)]
pub struct Cursor {
    held: Option<usize>,
    next_index: usize,
}

impl View for Cursor {
    type V = CursorView;

    closed spec fn view(&self) -> CursorView {
        CursorView {
            held: match self.held {
                None => None,
                Some(seq) => Some(seq as nat),
            },
            next_index: self.next_index as nat,
        }
    }
}

impl Cursor {
    /// A cursor on the head of `log`: its first step reaches the oldest element.
    pub fn new_head<T>(log: &CommitLog<T>) -> (cursor: Self)
        ensures
            cursor@ == CursorView::at_head(log@),
            cursor@.wf(log@),
    {
        Cursor { held: None, next_index: log.dropped }
    }

    /// A cursor on the newest element of `log`, or on the head if `log` is
    /// empty: its first step reaches the first element appended from now on.
    pub fn new_tail<T>(log: &CommitLog<T>) -> (cursor: Self)
        requires
            log.wf(),
        ensures
            cursor@ == CursorView::at_tail(log@),
            cursor@.wf(log@),
    {
        let len = log.items.len();
        if len == 0 {
            Cursor::new_head(log)
        } else {
            Cursor { held: Some(log.dropped + (len - 1)), next_index: log.dropped + len }
        }
    }

    /// The cursor's count of its position among everything ever appended.
    pub fn next_index(&self) -> (n: usize)
        ensures
            n == self@.next_index,
    {
        self.next_index
    }

    /// Steps to the next element and returns a copy of it, or returns `None`
    /// at the tail. A cursor whose element was dropped goes back to the head
    /// first, and so steps onto the oldest element that is left.
    pub fn next<T: Clone>(&mut self, log: &CommitLog<T>) -> (r: Option<T>)
        requires
            log.wf(),
            old(self)@.wf(log@),
        ensures
            final(self)@ == old(self)@.advance(log@).0,
            final(self)@.wf(log@),
            final(self)@.next_index >= old(self)@.next_index,
            match old(self)@.advance(log@).1 {
                Some(seq) => r is Some && cloned(log@.get(seq as int), r->0),
                None => r is None,
            },
    {
        if let Some(seq) = self.held {
            if seq < log.dropped {
                self.held = None;
                self.next_index = log.dropped;
            }
        }
        let target: usize = match self.held {
            None => {
                if log.items.len() == 0 {
                    return None;
                }
                log.dropped
            },
            Some(seq) => {
                if seq - log.dropped + 1 >= log.items.len() {
                    return None;
                }
                seq + 1
            },
        };
        self.held = Some(target);
        self.next_index = self.next_index + 1;
        Some(log.items[target - log.dropped].clone())
    }

    /// Steps to the next element and returns a copy of it; see
    /// [`Cursor::next`].
    pub fn get_copy<T: Clone>(&mut self, log: &CommitLog<T>) -> (r: Option<T>)
        requires
            log.wf(),
            old(self)@.wf(log@),
        ensures
            final(self)@ == old(self)@.advance(log@).0,
            final(self)@.wf(log@),
            final(self)@.next_index >= old(self)@.next_index,
            match old(self)@.advance(log@).1 {
                Some(seq) => r is Some && cloned(log@.get(seq as int), r->0),
                None => r is None,
            },
    {
        self.next(log)
    }

    /// A handle on the element the cursor stands on; see [`Index::new`].
    pub fn new_index(&self) -> (index: Index)
        ensures
            match self@.held {
                Some(seq) => index.at == Some(seq as usize),
                None => index.at is None,
            },
    {
        Index::new(self)
    }

    /// A copy of the element the next step would reach, without moving.
    /// Returns `None` at the tail, and also when the element the cursor stands
    /// on was dropped.
    pub fn peek<T: Clone>(&self, log: &CommitLog<T>) -> (r: Option<T>)
        requires
            log.wf(),
            self@.wf(log@),
        ensures
            match self@.peek(log@) {
                Some(seq) => r is Some && cloned(log@.get(seq as int), r->0),
                None => r is None,
            },
    {
        match self.held {
            None => {
                if log.items.len() == 0 {
                    None
                } else {
                    Some(log.items[0].clone())
                }
            },
            Some(seq) => {
                if seq < log.dropped || seq - log.dropped + 1 >= log.items.len() {
                    None
                } else {
                    Some(log.items[seq - log.dropped + 1].clone())
                }
            },
        }
    }
}

/// A handle on one element of a [`CommitLog`]: the element with sequence
/// number `at`. A handle taken from a cursor that stands on the head of the log
/// has no sequence number and names no element.
#[derive(Clone, Copy, Debug, PartialEq, Eq, Structural)]
pub struct Index {
    pub at: Option<usize>,
}

impl Index {
    /// The sequence number of the live element of `log` that the handle names.
    pub open spec fn resolve<T>(self, log: LogView<T>) -> Option<nat> {
        match self.at {
            Some(seq) if log.is_live(seq as int) => Some(seq as nat),
            _ => None,
        }
    }

    /// A handle on the element `cursor` stands on.
    pub fn new(cursor: &Cursor) -> (index: Self)
        ensures
            match cursor@.held {
                Some(seq) => index.at == Some(seq as usize),
                None => index.at is None,
            },
    {
        Index { at: cursor.held }
    }

    /// A copy of the element, or `None` once it has been dropped; see
    /// [`Index::get`].
    pub fn get_copy<T: Clone>(&self, log: &CommitLog<T>) -> (r: Option<T>)
        requires
            log.wf(),
        ensures
            match self.resolve(log@) {
                Some(seq) => r is Some && cloned(log@.get(seq as int), r->0),
                None => r is None,
            },
    {
        self.get(log)
    }

    /// A copy of the element, or `None` once it has been dropped.
    pub fn get<T: Clone>(&self, log: &CommitLog<T>) -> (r: Option<T>)
        requires
            log.wf(),
        ensures
            match self.resolve(log@) {
                Some(seq) => r is Some && cloned(log@.get(seq as int), r->0),
                None => r is None,
            },
    {
        match self.at {
            None => None,
            Some(seq) => {
                if seq < log.dropped || seq - log.dropped >= log.items.len() {
                    None
                } else {
                    Some(log.items[seq - log.dropped].clone())
                }
            },
        }
    }
}

} // verus!
