//! Points in time and spans of time, as plain values.
//!
//! Calendar arithmetic is `chrono`'s; the functions here that call it say what
//! its range is and what it returns.

use crate::single::Single;
use vstd::prelude::*;

verus! {

/// Nanoseconds in a second.
pub const NANOS_PER_SEC: u32 = 1_000_000_000;

/// The first second that `chrono`'s UTC time can hold.
pub const FIRST_SEC: i64 = -8_334_601_228_800;

/// The last second that `chrono`'s UTC time can hold.
pub const LAST_SEC: i64 = 8_210_266_876_799;

/// The whole seconds of the longest `chrono` time delta, `i64::MAX` ms.
pub const LONGEST_SECS: i64 = 9_223_372_036_854_775;

/// The remaining nanoseconds of the longest `chrono` time delta.
pub const LONGEST_NANOS: u32 = 807_000_000;

/// One billion, the nanoseconds of a second, in single precision.
pub const BILLION: u32 = 0x4e6e_6b28;

/// A point in time: seconds since the Unix epoch and the nanoseconds past
/// that second.
#[derive(Clone, Copy, Debug, PartialEq, Eq, Structural)]
pub struct Timestamp {
    pub secs: i64,
    pub nanos: u32,
}

/// A nonnegative length of time.
#[derive(Clone, Copy, Debug, PartialEq, Eq, Structural)]
pub struct Span {
    pub secs: u64,
    pub nanos: u32,
}

/// A signed length of time: `secs` rounded down, `nanos` on top.
#[derive(Clone, Copy, Debug, PartialEq, Eq, Structural)]
pub struct Delta {
    pub secs: i64,
    pub nanos: u32,
}

impl Timestamp {
    /// Inside the range of `chrono`'s UTC time, leap seconds aside.
    pub open spec fn wf(self) -> bool {
        FIRST_SEC <= self.secs <= LAST_SEC && self.nanos < NANOS_PER_SEC
    }

    /// Nanoseconds since the epoch.
    pub open spec fn total(self) -> int {
        self.secs * NANOS_PER_SEC + self.nanos
    }

    /// `self < other`.
    pub fn before(self, other: Timestamp) -> (r: bool)
        requires
            self.nanos < NANOS_PER_SEC,
            other.nanos < NANOS_PER_SEC,
        ensures
            r == (self.total() < other.total()),
    {
        self.secs < other.secs || (self.secs == other.secs && self.nanos < other.nanos)
    }

    /// Milliseconds since the epoch, rounded down.
    pub fn millis(self) -> (r: i64)
        requires
            self.wf(),
        ensures
            r == self.total() / 1_000_000,
            r == self.spec_millis(),
    {
        proof {
            assert((self.secs * NANOS_PER_SEC + self.nanos) / 1_000_000 == self.secs * 1000
                + self.nanos / 1_000_000) by (nonlinear_arith)
                requires
                    self.nanos < NANOS_PER_SEC,
            ;
        }
        self.secs * 1000 + (self.nanos / 1_000_000) as i64
    }

    pub open spec fn spec_millis(self) -> int {
        self.total() / 1_000_000
    }

    /// Seconds since the last midnight UTC.
    pub fn seconds_of_day(self) -> (r: u32)
        requires
            self.wf(),
        ensures
            r == self.secs as int % 86_400,
    {
        seconds_from_midnight(self)
    }

    /// The span from `earlier` to this point, where that is not later.
    pub fn since(self, earlier: Timestamp) -> (r: Span)
        requires
            self.wf(),
            earlier.wf(),
            earlier.total() <= self.total(),
        ensures
            r.wf(),
            r.total() == self.total() - earlier.total(),
            r == spec_since(self, earlier),
    {
        let r = if self.nanos >= earlier.nanos {
            Span { secs: (self.secs - earlier.secs) as u64, nanos: self.nanos - earlier.nanos }
        } else {
            Span {
                secs: (self.secs - earlier.secs - 1) as u64,
                nanos: self.nanos + NANOS_PER_SEC - earlier.nanos,
            }
        };
        proof {
            lemma_span_total_injective(r, spec_since(self, earlier));
        }
        r
    }

    /// The point one `span` later, if the calendar reaches that far.
    pub fn after(self, span: Span) -> (r: Option<Timestamp>)
        requires
            self.wf(),
            span.wf(),
        ensures
            r == later(self, span),
            r matches Some(t) ==> t.wf() && t.total() == self.total() + span.total(),
            r is None <==> self.total() + span.total() > last_instant(),
    {
        let delta = match delta_of_span(span) {
            Some(d) => d,
            None => Delta { secs: LONGEST_SECS, nanos: LONGEST_NANOS },
        };
        let r = checked_add(self, delta);
        proof {
            if let Some(t) = r {
                lemma_total_injective(t, later(self, span)->0);
            }
        }
        r
    }
}

/// The point one `span` before `ts`. A span too long for a time delta counts
/// as none.
pub fn before_by(ts: Timestamp, span: Span) -> (r: Option<Timestamp>)
    requires
        ts.wf(),
        span.wf(),
    ensures
        r == earlier(ts, span),
        r matches Some(t) ==> t.wf(),
{
    let delta = match delta_of_span(span) {
        Some(d) => d,
        None => Delta { secs: 0, nanos: 0 },
    };
    let r = checked_sub(ts, delta);
    proof {
        if let Some(t) = r {
            lemma_total_injective(t, earlier(ts, span)->0);
        }
    }
    r
}

/// `ts - span`, where the calendar reaches that far back; `ts` itself for a
/// span too long for a time delta.
pub open spec fn earlier(ts: Timestamp, span: Span) -> Option<Timestamp> {
    let back = if span.total() <= longest_delta() {
        span.total()
    } else {
        0
    };
    if ts.total() - back >= first_instant() {
        Some(instant(ts.total() - back))
    } else {
        None
    }
}

/// The last instant of the calendar, in nanoseconds since the epoch.
pub open spec fn last_instant() -> int {
    LAST_SEC * NANOS_PER_SEC + (NANOS_PER_SEC - 1)
}

/// The first instant of the calendar, in nanoseconds since the epoch.
pub open spec fn first_instant() -> int {
    FIRST_SEC * NANOS_PER_SEC
}

/// The timestamp that many nanoseconds past the epoch.
pub open spec fn instant(total: int) -> Timestamp {
    Timestamp {
        secs: (total / NANOS_PER_SEC as int) as i64,
        nanos: (total % NANOS_PER_SEC as int) as u32,
    }
}

/// `ts + span`, where the calendar reaches that far.
pub open spec fn later(ts: Timestamp, span: Span) -> Option<Timestamp> {
    if ts.total() + span.total() <= last_instant() {
        Some(instant(ts.total() + span.total()))
    } else {
        None
    }
}

/// The span from `earlier` to `ts`, where that is not later.
pub open spec fn spec_since(ts: Timestamp, earlier: Timestamp) -> Span {
    let total = ts.total() - earlier.total();
    Span {
        secs: (total / NANOS_PER_SEC as int) as u64,
        nanos: (total % NANOS_PER_SEC as int) as u32,
    }
}

pub(crate) proof fn lemma_span_total_injective(a: Span, b: Span)
    requires
        a.nanos < NANOS_PER_SEC,
        b.nanos < NANOS_PER_SEC,
        a.total() == b.total(),
    ensures
        a == b,
{
}

pub(crate) proof fn lemma_total_injective(a: Timestamp, b: Timestamp)
    requires
        a.nanos < NANOS_PER_SEC,
        b.nanos < NANOS_PER_SEC,
        a.total() == b.total(),
    ensures
        a == b,
{
}

impl Span {
    pub open spec fn wf(self) -> bool {
        self.nanos < NANOS_PER_SEC
    }

    /// The span in nanoseconds.
    pub open spec fn total(self) -> int {
        self.secs * NANOS_PER_SEC + self.nanos
    }

    pub fn is_zero(self) -> (r: bool)
        ensures
            r == (self.total() == 0),
    {
        self.secs == 0 && self.nanos == 0
    }

    /// The span in seconds, in single precision: the whole seconds plus the
    /// nanoseconds over a billion, each step rounded.
    pub open spec fn spec_seconds(self) -> Single {
        (Single::fint(self.secs as nat)).fadd((Single::fint(self.nanos as nat)).fdiv(Single { bits: BILLION }))
    }

    pub fn seconds(self) -> (r: Single)
        ensures
            r == self.spec_seconds(),
    {
        let whole = Single::of_integer(self.secs);
        let part = Single::of_integer(self.nanos as u64).over(Single::from_bits(BILLION));
        whole.plus(part)
    }
}

impl Delta {
    pub open spec fn total(self) -> int {
        self.secs * NANOS_PER_SEC + self.nanos
    }

    /// A delta that `chrono` can hold, and not a negative one.
    pub open spec fn wf(self) -> bool {
        &&& self.secs >= 0
        &&& self.nanos < NANOS_PER_SEC
        &&& self.total() <= longest_delta()
    }
}

/// The longest `chrono` time delta, in nanoseconds.
pub open spec fn longest_delta() -> int {
    LONGEST_SECS * NANOS_PER_SEC + LONGEST_NANOS
}

/// `chrono::TimeDelta::from_std`: a span as a time delta. It fails exactly on
/// spans longer than the longest delta, `i64::MAX` milliseconds.
#[verifier::external_body]
fn delta_of_span(span: Span) -> (r: Option<Delta>)
    requires
        span.wf(),
    ensures
        span.total() <= longest_delta() ==> r == Some(
            Delta { secs: span.secs as i64, nanos: span.nanos },
        ),
        span.total() > longest_delta() ==> r is None,
{
    match chrono::TimeDelta::from_std(std::time::Duration::new(span.secs, span.nanos)) {
        Ok(d) => Some(Delta { secs: d.num_seconds(), nanos: d.subsec_nanos() as u32 }),
        Err(_) => None,
    }
}

/// `chrono::DateTime::checked_add_signed` on UTC time: the later point in
/// time, or nothing where it would pass the end of the calendar.
#[verifier::external_body]
fn checked_add(ts: Timestamp, delta: Delta) -> (r: Option<Timestamp>)
    requires
        ts.wf(),
        delta.wf(),
    ensures
        ts.total() + delta.total() <= last_instant() ==> r is Some && (r->0).wf() && (
        r->0).total() == ts.total() + delta.total(),
        ts.total() + delta.total() > last_instant() ==> r is None,
{
    let at = chrono::DateTime::<chrono::Utc>::from_timestamp(ts.secs, ts.nanos)?;
    let by = chrono::TimeDelta::new(delta.secs, delta.nanos)?;
    let sum = at.checked_add_signed(by)?;
    Some(Timestamp { secs: sum.timestamp(), nanos: sum.timestamp_subsec_nanos() })
}

/// `chrono::DateTime::checked_sub_signed` on UTC time: the earlier point in
/// time, or nothing where it would pass the start of the calendar.
#[verifier::external_body]
fn checked_sub(ts: Timestamp, delta: Delta) -> (r: Option<Timestamp>)
    requires
        ts.wf(),
        delta.wf(),
    ensures
        ts.total() - delta.total() >= first_instant() ==> r is Some && (r->0).wf() && (
        r->0).total() == ts.total() - delta.total(),
        ts.total() - delta.total() < first_instant() ==> r is None,
{
    let at = chrono::DateTime::<chrono::Utc>::from_timestamp(ts.secs, ts.nanos)?;
    let by = chrono::TimeDelta::new(delta.secs, delta.nanos)?;
    let difference = at.checked_sub_signed(by)?;
    Some(
        Timestamp { secs: difference.timestamp(), nanos: difference.timestamp_subsec_nanos() },
    )
}

/// `chrono::Timelike::num_seconds_from_midnight` on UTC time, where every day
/// has 86 400 seconds.
#[verifier::external_body]
fn seconds_from_midnight(ts: Timestamp) -> (r: u32)
    requires
        ts.wf(),
    ensures
        r == ts.secs as int % 86_400,
{
    let at = chrono::DateTime::<chrono::Utc>::from_timestamp(ts.secs, ts.nanos);
    at.map_or(0, |t| chrono::Timelike::num_seconds_from_midnight(&t.time()))
}

/// `chrono::Utc::now`: the machine's clock. Of its reading only that it is a
/// point in time of the calendar is claimed. The call itself panics where the
/// machine's clock stands before 1970, which no caller can rule out.
#[verifier::external_body]
pub(crate) fn utc_now() -> (r: Timestamp)
    ensures
        r.wf(),
{
    let now = chrono::Utc::now();
    Timestamp { secs: now.timestamp(), nanos: now.timestamp_subsec_nanos() }
}

} // verus!
