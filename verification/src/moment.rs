//! Moments in time.

use vstd::prelude::*;

verus! {

/// A moment: seconds since the beginning of 1970, and nanoseconds behind them.
#[derive(Clone, Copy, Debug)]
pub struct Moment {
    secs: i64,
    nanos: u32,
}

/// The nanoseconds of a second.
pub open spec fn second() -> int {
    1_000_000_000
}

/// The whole seconds in a span of nanoseconds; what is left over is dropped, also before zero.
pub open spec fn whole_seconds(span: int) -> int {
    if span >= 0 {
        span / second()
    } else {
        -((-span) / second())
    }
}

/// Whether a moment lies within the calendar: from the year -9999 to the year 9999.
pub open spec fn in_calendar(secs: int) -> bool {
    -377_705_116_800 <= secs <= 253_402_300_799
}

/// The present moment, by `time::OffsetDateTime::now_utc`.
#[verifier::external_body]
pub(crate) fn now() -> (r: Moment)
    ensures
        r.wf(),
{
    let t = time::OffsetDateTime::now_utc();
    Moment { secs: t.unix_timestamp(), nanos: t.nanosecond() }
}

impl Moment {
    /// The whole seconds.
    pub closed spec fn secs(&self) -> int {
        self.secs as int
    }

    /// The nanoseconds behind them.
    pub closed spec fn nanos(&self) -> int {
        self.nanos as int
    }

    /// The moment in nanoseconds.
    pub open spec fn total(&self) -> int {
        self.secs() * second() + self.nanos()
    }

    /// Whether the moment is one that a calendar of four-digit years has, in whatever zone.
    pub open spec fn wf(&self) -> bool {
        -400_000_000_000 <= self.secs() <= 400_000_000_000 && 0 <= self.nanos() < second()
    }

    /// The moment of the given seconds and nanoseconds, if it is one.
    pub fn new(secs: i64, nanos: u32) -> (r: Option<Moment>)
        ensures
            match r {
                Some(m) => m.wf() && m.secs() == secs && m.nanos() == nanos,
                None => !(-400_000_000_000 <= secs <= 400_000_000_000 && nanos < second()),
            },
    {
        if secs < -400_000_000_000 || secs > 400_000_000_000 || nanos >= 1_000_000_000 {
            None
        } else {
            Some(Moment { secs, nanos })
        }
    }

    /// The whole seconds.
    pub fn seconds(&self) -> (r: i64)
        ensures
            r == self.secs(),
    {
        self.secs
    }

    /// The nanoseconds behind them.
    pub fn nanoseconds(&self) -> (r: u32)
        ensures
            r == self.nanos(),
    {
        self.nanos
    }

    /// The whole seconds from another moment to this one.
    pub fn seconds_since(&self, earlier: &Moment) -> (r: i64)
        requires
            self.wf(),
            earlier.wf(),
        ensures
            r == whole_seconds(self.total() - earlier.total()),
    {
        let span: i128 = (self.secs as i128 - earlier.secs as i128) * 1_000_000_000 + (
        self.nanos as i128 - earlier.nanos as i128);
        assert(span == self.total() - earlier.total());
        if span >= 0 {
            (span / 1_000_000_000) as i64
        } else {
            let past: i128 = -span;
            (-(past / 1_000_000_000)) as i64
        }
    }

    /// Whether this moment is no more than so many seconds behind another.
    pub fn is_within(&self, secs: i64, earlier: &Moment) -> (r: bool)
        requires
            self.wf(),
            earlier.wf(),
        ensures
            r == (self.total() - earlier.total() <= secs * second()),
    {
        let span: i128 = (self.secs as i128 - earlier.secs as i128) * 1_000_000_000 + (
        self.nanos as i128 - earlier.nanos as i128);
        assert(span == self.total() - earlier.total());
        span <= secs as i128 * 1_000_000_000
    }

    /// Whether the moment so many seconds on lies within the calendar.
    pub fn can_add(&self, secs: i64) -> (r: bool)
        requires
            self.wf(),
        ensures
            r == in_calendar(self.secs() + secs),
    {
        let sum: i128 = self.secs as i128 + secs as i128;
        -377_705_116_800 <= sum && sum <= 253_402_300_799
    }

    /// The moment so many seconds on.
    pub fn plus(&self, secs: i64) -> (r: Moment)
        requires
            self.wf(),
            in_calendar(self.secs() + secs),
        ensures
            r.wf(),
            r.secs() == self.secs() + secs,
            r.nanos() == self.nanos(),
    {
        Moment { secs: (self.secs as i128 + secs as i128) as i64, nanos: self.nanos }
    }
}

/// Whole seconds are what is left of a span without its fraction: no longer than the span, and
/// less than a second shorter; a span in the past has as many, turned round.
pub proof fn law_fractions_are_dropped(span: int)
    ensures
        span >= 0 ==> whole_seconds(span) * 1_000_000_000 <= span < (whole_seconds(span) + 1)
            * 1_000_000_000,
        whole_seconds(-span) == -whole_seconds(span),
{
}

} // verus!
