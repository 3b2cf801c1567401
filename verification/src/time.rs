//! Wall-clock instants and spans of time.
//!
//! An instant is a count of whole seconds since the Unix epoch plus a count of
//! nanoseconds into that second; a span is a signed count of milliseconds.
//! Everything the broker decides about deadlines and expiry is a comparison
//! between the nanoseconds that separate two instants and the nanoseconds of a
//! span, and is carried out exactly in 128-bit arithmetic.

use vstd::prelude::*;

verus! {

/// Nanoseconds in one second.
pub const NANOS_PER_SEC: i64 = 1_000_000_000;

/// Nanoseconds in one millisecond.
pub const NANOS_PER_MILLI: i64 = 1_000_000;

/// Milliseconds in one second.
pub const MILLIS_PER_SEC: i64 = 1_000;

/// The largest number of whole seconds a [`Duration`] can hold.
pub const MAX_SECONDS: i64 = 9_223_372_036_854_775;

/// A point in time, in UTC.
#[derive(Clone, Copy, Debug, PartialEq, Eq, PartialOrd, Ord, Structural)]
pub struct Timestamp {
    /// Whole seconds since 1970-01-01T00:00:00Z.
    pub secs: i64,
    /// Nanoseconds since the last second boundary.
    pub nanos: u32,
}

/// A signed span of time with millisecond resolution.
#[derive(Clone, Copy, Debug, PartialEq, Eq, PartialOrd, Ord, Structural)]
pub struct Duration {
    /// The length of the span in milliseconds.
    pub millis: i64,
}

impl Timestamp {
    /// The instant as nanoseconds since the Unix epoch.
    pub open spec fn as_nanos(self) -> int {
        self.secs * 1_000_000_000 + self.nanos
    }

    /// Builds an instant from its two parts.
    pub fn new(secs: i64, nanos: u32) -> (t: Timestamp)
        ensures
            t.secs == secs,
            t.nanos == nanos,
    {
        Timestamp { secs, nanos }
    }

    /// The nanoseconds from `earlier` to `self`; negative when `self` is the
    /// earlier of the two.
    pub fn nanos_since(&self, earlier: &Timestamp) -> (d: i128)
        ensures
            d == self.as_nanos() - earlier.as_nanos(),
    {
        let secs: i128 = self.secs as i128 - earlier.secs as i128;
        assert(-0x1_0000_0000_0000_0000 * 1_000_000_000 <= secs * 1_000_000_000
            <= 0x1_0000_0000_0000_0000 * 1_000_000_000) by (nonlinear_arith)
            requires
                -0x1_0000_0000_0000_0000 <= secs <= 0x1_0000_0000_0000_0000,
        ;
        let whole: i128 = secs * (NANOS_PER_SEC as i128);
        whole + (self.nanos as i128 - earlier.nanos as i128)
    }
}

impl Duration {
    /// The span as nanoseconds.
    pub open spec fn as_nanos(self) -> int {
        self.millis * 1_000_000
    }

    /// The whole seconds in the span, rounded toward zero.
    pub open spec fn whole_seconds(self) -> int {
        if self.millis >= 0 {
            self.millis / 1000
        } else {
            -((-self.millis) / 1000)
        }
    }

    /// The empty span.
    pub fn zero() -> (d: Duration)
        ensures
            d.millis == 0,
    {
        Duration { millis: 0 }
    }

    /// A span of `secs` seconds.
    pub fn seconds(secs: i64) -> (d: Duration)
        requires
            -MAX_SECONDS <= secs <= MAX_SECONDS,
        ensures
            d.millis == secs * 1000,
            d.whole_seconds() == secs,
    {
        Duration { millis: secs * MILLIS_PER_SEC }
    }

    /// A span of `millis` milliseconds.
    pub fn milliseconds(millis: i64) -> (d: Duration)
        ensures
            d.millis == millis,
    {
        Duration { millis }
    }

    /// The whole seconds in the span, rounded toward zero.
    pub fn num_seconds(&self) -> (s: i64)
        ensures
            s == self.whole_seconds(),
    {
        self.millis / MILLIS_PER_SEC
    }

    /// The span in milliseconds.
    pub fn num_milliseconds(&self) -> (m: i64)
        ensures
            m == self.millis,
    {
        self.millis
    }

    /// Whether the span is empty.
    pub fn is_zero(&self) -> (z: bool)
        ensures
            z == (self.millis == 0),
    {
        self.millis == 0
    }

    /// The span as nanoseconds.
    pub fn nanos(&self) -> (n: i128)
        ensures
            n == self.as_nanos(),
    {
        let millis: i128 = self.millis as i128;
        assert(-0x1_0000_0000_0000_0000 * 1_000_000 <= millis * 1_000_000
            <= 0x1_0000_0000_0000_0000 * 1_000_000) by (nonlinear_arith)
            requires
                -0x1_0000_0000_0000_0000 <= millis <= 0x1_0000_0000_0000_0000,
        ;
        millis * (NANOS_PER_MILLI as i128)
    }
}

/// Whether strictly more than `span` separates `since` from `now`.
pub open spec fn elapsed_exceeds(now: Timestamp, since: Timestamp, span: Duration) -> bool {
    now.as_nanos() - since.as_nanos() > span.as_nanos()
}

/// Whether strictly less than `span` separates `since` from `now`.
pub open spec fn elapsed_within(now: Timestamp, since: Timestamp, span: Duration) -> bool {
    now.as_nanos() - since.as_nanos() < span.as_nanos()
}

/// Decides [`elapsed_exceeds`].
pub fn has_elapsed(now: &Timestamp, since: &Timestamp, span: &Duration) -> (r: bool)
    ensures
        r == elapsed_exceeds(*now, *since, *span),
{
    now.nanos_since(since) > span.nanos()
}

/// Decides [`elapsed_within`].
pub fn is_within(now: &Timestamp, since: &Timestamp, span: &Duration) -> (r: bool)
    ensures
        r == elapsed_within(*now, *since, *span),
{
    now.nanos_since(since) < span.nanos()
}

/// Whether something last touched at `updated` and allowed to idle for `ttl`
/// is stale at `now`. A zero `ttl` means it never goes stale.
pub open spec fn is_stale(ttl: Duration, updated: Timestamp, now: Timestamp) -> bool {
    ttl.millis != 0 && elapsed_exceeds(now, updated, ttl)
}

/// Decides [`is_stale`].
pub fn stale(ttl: &Duration, updated: &Timestamp, now: &Timestamp) -> (r: bool)
    ensures
        r == is_stale(*ttl, *updated, *now),
{
    !ttl.is_zero() && has_elapsed(now, updated, ttl)
}

/// `chrono::Utc::now`, split into `DateTime::timestamp` (whole seconds since
/// the epoch) and `DateTime::timestamp_subsec_nanos`. Nothing is claimed of
/// the reading: the system clock may stand anywhere and may step backwards.
/// With a system clock that stands before the epoch chrono panics.
#[verifier::external_body]
pub(crate) fn now() -> (t: Timestamp) {
    let t = chrono::Utc::now();
    Timestamp { secs: t.timestamp(), nanos: t.timestamp_subsec_nanos() }
}

} // verus!
