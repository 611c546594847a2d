//! Spans of time as plain values.

use vstd::prelude::*;

verus! {

/// A span of time in whole seconds and nanoseconds below one second.
#[derive(Clone, Copy, Debug, Eq, PartialEq, Structural)]
pub struct TimeSpan {
    secs: u64,
    nanos: u32,
}

impl TimeSpan {
    /// The span in nanoseconds.
    pub closed spec fn view(&self) -> nat {
        self.secs as nat * 1_000_000_000 + self.nanos as nat
    }

    /// The nanosecond part stays below one second.
    pub closed spec fn wf(self) -> bool {
        self.nanos < 1_000_000_000
    }

    /// Creates a span from seconds and nanoseconds below one second.
    #[must_use]
    pub fn new(secs: u64, nanos: u32) -> (r: Self)
        requires
            nanos < 1_000_000_000,
        ensures
            r.wf(),
            r@ == secs as nat * 1_000_000_000 + nanos as nat,
    {
        TimeSpan { secs, nanos }
    }

    /// Creates a span of whole milliseconds.
    #[must_use]
    pub fn from_millis(millis: u64) -> (r: Self)
        ensures
            r.wf(),
            r@ == millis as nat * 1_000_000,
    {
        TimeSpan { secs: millis / 1000, nanos: (millis % 1000) as u32 * 1_000_000 }
    }

    /// Returns `true` for the empty span.
    #[must_use]
    pub fn is_zero(&self) -> (r: bool)
        ensures
            r == (self@ == 0),
    {
        self.secs == 0 && self.nanos == 0
    }

    /// Returns the whole milliseconds in the span.
    #[must_use]
    pub fn as_millis(&self) -> (r: u128)
        requires
            self.wf(),
        ensures
            r == self@ / 1_000_000,
    {
        self.secs as u128 * 1000 + (self.nanos / 1_000_000) as u128
    }

    /// Returns whether the span is shorter than `other`.
    #[must_use]
    pub fn is_shorter_than(&self, other: &TimeSpan) -> (r: bool)
        requires
            self.wf(),
            other.wf(),
        ensures
            r == (self@ < other@),
    {
        self.secs < other.secs || (self.secs == other.secs && self.nanos < other.nanos)
    }

    /// Returns how much longer the span is than `earlier`, or the empty span.
    #[must_use]
    pub fn saturating_since(&self, earlier: &TimeSpan) -> (r: TimeSpan)
        requires
            self.wf(),
            earlier.wf(),
        ensures
            r.wf(),
            r@ == (if self@ >= earlier@ {
                (self@ - earlier@) as nat
            } else {
                0
            }),
    {
        if self.is_shorter_than(earlier) {
            TimeSpan { secs: 0, nanos: 0 }
        } else if self.nanos >= earlier.nanos {
            TimeSpan { secs: self.secs - earlier.secs, nanos: self.nanos - earlier.nanos }
        } else {
            TimeSpan {
                secs: self.secs - earlier.secs - 1,
                nanos: 1_000_000_000 - (earlier.nanos - self.nanos),
            }
        }
    }
}

/// A time span counts nanoseconds. Spans are made of seconds and milliseconds, compared and
/// subtracted by that count.
pub proof fn law_time_spans_count_nanoseconds(
    secs: u64,
    nanos: u32,
    millis: u64,
    span: TimeSpan,
    other: TimeSpan,
)
    ensures
        call_ensures(TimeSpan::new, (secs, nanos), span) ==> span@ == secs * 1_000_000_000 + nanos,
        call_ensures(TimeSpan::from_millis, (millis,), span) ==> span@ == millis * 1_000_000,
        forall|r: bool| #[trigger]
            call_ensures(TimeSpan::is_zero, (&span,), r) ==> (r <==> span@ == 0),
        forall|r: u128| #[trigger]
            call_ensures(TimeSpan::as_millis, (&span,), r) ==> r * 1_000_000 <= span@ < (r + 1)
                * 1_000_000,
        forall|r: bool| #[trigger]
            call_ensures(TimeSpan::is_shorter_than, (&span, &other), r) ==> (r <==> span@
                < other@),
        forall|r: TimeSpan| #[trigger]
            call_ensures(TimeSpan::saturating_since, (&span, &other), r) ==> {
                &&& span@ >= other@ ==> r@ + other@ == span@
                &&& span@ <= other@ ==> r@ == 0
            },
{
}

} // verus!
