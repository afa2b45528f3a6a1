//! Lengths of time and moments, counted in nanoseconds.
use vstd::prelude::*;

verus! {

/// The number of nanoseconds in one second.
pub const NANOS_PER_SEC: u128 = 1_000_000_000;

/// The longest length of time that a [`Span`] can hold, in nanoseconds:
/// the largest whole number of seconds of 64 bits, and one nanosecond less than one second more.
pub const MAX_NANOS: u128 = 18_446_744_073_709_551_615_999_999_999;

/// A length of time, or a moment given as the length of time since the Unix epoch.
#[derive(Clone, Copy, Debug, PartialEq, Eq, Structural)]
pub struct Span {
    /// The length in nanoseconds, at most [`MAX_NANOS`].
    pub nanos: u128,
}

impl View for Span {
    type V = nat;

    open spec fn view(&self) -> nat {
        self.nanos as nat
    }
}

impl Span {
    /// The length is in the range that a span can hold.
    pub open spec fn wf(&self) -> bool {
        self.nanos <= MAX_NANOS
    }

    /// The sum of two spans; the longest span when the sum is longer than it.
    pub open spec fn plus(self, other: Span) -> Span {
        Span { nanos: vstd::math::min(self.nanos + other.nanos, MAX_NANOS as int) as u128 }
    }

    /// The span less another; the span of no length when the other is the longer.
    pub open spec fn minus(self, other: Span) -> Span {
        Span { nanos: vstd::math::max(self.nanos - other.nanos, 0) as u128 }
    }

    /// The span of no length.
    pub fn zero() -> (span: Span)
        ensures
            span@ == 0,
            span.wf(),
    {
        Span { nanos: 0 }
    }

    /// The span of a number of seconds.
    pub fn from_secs(secs: u64) -> (span: Span)
        ensures
            span@ == secs * NANOS_PER_SEC,
            span.wf(),
    {
        Span { nanos: (secs as u128) * NANOS_PER_SEC }
    }

    /// The span of a number of whole seconds and of nanoseconds beside them;
    /// the longest span when the two together are longer than it.
    pub fn new(secs: u64, nanos: u32) -> (span: Span)
        ensures
            span@ == vstd::math::min(secs * NANOS_PER_SEC + nanos, MAX_NANOS as int),
            span.wf(),
    {
        let total: u128 = (secs as u128) * NANOS_PER_SEC + (nanos as u128);
        if total > MAX_NANOS {
            Span { nanos: MAX_NANOS }
        } else {
            Span { nanos: total }
        }
    }

    /// The whole seconds of the span.
    pub fn as_secs(&self) -> (secs: u64)
        requires
            self.wf(),
        ensures
            secs == self@ / (NANOS_PER_SEC as nat),
    {
        (self.nanos / NANOS_PER_SEC) as u64
    }

    /// The nanoseconds of the span beside its whole seconds.
    pub fn subsec_nanos(&self) -> (nanos: u32)
        ensures
            nanos == self@ % (NANOS_PER_SEC as nat),
    {
        (self.nanos % NANOS_PER_SEC) as u32
    }

    /// The sum of two spans; the longest span when the sum is longer than it.
    pub fn saturating_add(self, other: Span) -> (sum: Span)
        requires
            self.wf(),
            other.wf(),
        ensures
            sum == self.plus(other),
            sum@ == vstd::math::min((self@ + other@) as int, MAX_NANOS as int),
            sum.wf(),
    {
        let total: u128 = self.nanos + other.nanos;
        if total > MAX_NANOS {
            Span { nanos: MAX_NANOS }
        } else {
            Span { nanos: total }
        }
    }

    /// The span less another; the span of no length when the other is the longer.
    pub fn saturating_sub(self, other: Span) -> (rest: Span)
        requires
            self.wf(),
        ensures
            rest == self.minus(other),
            rest@ == vstd::math::max(self@ - other@, 0),
            rest.wf(),
    {
        if self.nanos >= other.nanos {
            Span { nanos: self.nanos - other.nanos }
        } else {
            Span { nanos: 0 }
        }
    }

    /// The length of time between two spans.
    pub fn abs_diff(self, other: Span) -> (gap: Span)
        requires
            self.wf(),
            other.wf(),
        ensures
            gap@ == vstd::math::abs(self@ - other@),
            gap.wf(),
    {
        if self.nanos >= other.nanos {
            Span { nanos: self.nanos - other.nanos }
        } else {
            Span { nanos: other.nanos - self.nanos }
        }
    }

    /// Tells whether the span is shorter than another.
    pub fn is_less_than(&self, other: &Span) -> (less: bool)
        ensures
            less == (self@ < other@),
    {
        self.nanos < other.nanos
    }
}

} // verus!
