//! Messages, as a topic stores them and as a subscription delivers them.

use crate::time::Timestamp;
use vstd::arithmetic::power::pow;
use vstd::prelude::*;

verus! {

/// A published message as it is kept in a topic's log.
#[derive(Debug)]
pub struct Envelope {
    /// Identifier of the message.
    pub id: u128,
    /// Time the message was published.
    pub time: Timestamp,
    /// The payload.
    pub data: String,
}

impl Envelope {
    /// An envelope for `data`, published at `time` under `id`.
    pub fn new(id: u128, time: Timestamp, data: String) -> (e: Self)
        ensures
            e == (Envelope { id, time, data }),
    {
        Envelope { id, time, data }
    }
}

impl Clone for Envelope {
    fn clone(&self) -> (e: Self)
        ensures
            e == *self,
    {
        Envelope { id: self.id, time: self.time, data: self.data.clone() }
    }
}

/// A message as a subscription hands it to a consumer.
#[derive(Debug, PartialEq, Eq, PartialOrd, Ord)]
pub struct Message {
    /// Unique identifier for this message.
    pub id: u128,
    /// Time the message was published.
    pub time: Timestamp,
    /// Number of times the message has been tried (pulled).
    pub tries: u32,
    /// Actual message data.
    pub data: String,
}

impl Clone for Message {
    fn clone(&self) -> (m: Self)
        ensures
            m == *self,
    {
        Message { id: self.id, time: self.time, tries: self.tries, data: self.data.clone() }
    }
}

impl Default for Message {
    /// A message without data that has not been tried yet, with the nil
    /// identifier and the current time.
    fn default() -> (m: Message)
        ensures
            m.id == 0,
            m.tries == 0,
            m.data@ == Seq::<char>::empty(),
    {
        Message { id: 0, time: crate::time::now(), tries: 0, data: String::new() }
    }
}

impl Message {
    /// The delivery of `envelope` on its `tries`-th try.
    pub open spec fn of(envelope: Envelope, tries: u32) -> Message {
        Message { id: envelope.id, time: envelope.time, tries, data: envelope.data }
    }

    /// Turns a stored envelope into its `tries`-th delivery.
    pub fn deliver(envelope: Envelope, tries: u32) -> (m: Message)
        ensures
            m == Message::of(envelope, tries),
    {
        Message { id: envelope.id, time: envelope.time, tries, data: envelope.data }
    }

    /// A message that has not been tried yet, with a fresh identifier and the
    /// current time.
    pub fn new(data: String) -> (m: Message)
        ensures
            m.tries == 0,
            m.data == data,
    {
        Message { id: fresh_id(), time: crate::time::now(), tries: 0, data }
    }
}

/// The tries of a delivery that follows one with `tries` tries.
pub open spec fn next_try(tries: u32) -> u32 {
    if tries < u32::MAX {
        (tries + 1) as u32
    } else {
        u32::MAX
    }
}

/// `uuid::Uuid::new_v4`, read through `Uuid::as_u128`: 122 random bits around
/// the fixed bits that mark a version 4 (random) UUID of the RFC variant.
#[verifier::external_body]
pub(crate) fn fresh_id() -> (id: u128)
    ensures
        (id >> 76) & 0xf == 4,
        (id >> 62) & 0x3 == 2,
{
    uuid::Uuid::new_v4().as_u128()
}

/// The sixteen hexadecimal digits, in lower case.
pub open spec fn hex_digits() -> Seq<char> {
    seq!['0', '1', '2', '3', '4', '5', '6', '7', '8', '9', 'a', 'b', 'c', 'd', 'e', 'f']
}

/// Whether a hyphen stands at position `i` of the text of a UUID.
pub open spec fn is_hyphen(i: int) -> bool {
    i == 8 || i == 13 || i == 18 || i == 23
}

/// The number of hexadecimal digits that stand before position `i` of the
/// text of a UUID.
pub open spec fn digits_before(i: int) -> int {
    if i < 8 {
        i
    } else if i < 13 {
        i - 1
    } else if i < 18 {
        i - 2
    } else if i < 23 {
        i - 3
    } else {
        i - 4
    }
}

/// The hexadecimal digit of `id` that has `before` digits before it, the
/// most significant digit first, as a number.
pub open spec fn hex_digit(id: u128, before: int) -> int {
    (id as int / pow(16, (31 - before) as nat)) % 16
}

/// The text of the UUID with the value `id`: 36 characters, which are the 32
/// hexadecimal digits of `id` in lower case, the most significant first, in
/// groups of 8, 4, 4, 4 and 12 with a hyphen between two groups.
pub open spec fn uuid_text(id: u128) -> Seq<char> {
    Seq::new(
        36,
        |i: int|
            if is_hyphen(i) {
                '-'
            } else {
                hex_digits()[hex_digit(id, digits_before(i))]
            },
    )
}

/// `uuid::Uuid::from_u128` followed by `to_string`, which writes a UUID in
/// its hyphenated form, in lower case.
#[verifier::external_body]
pub(crate) fn id_text(id: u128) -> (text: String)
    ensures
        text@ == uuid_text(id),
{
    uuid::Uuid::from_u128(id).to_string()
}

} // verus!
