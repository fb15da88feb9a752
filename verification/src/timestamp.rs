//! Capture timestamps and the durations between them.
//!
//! A timestamp is split into whole seconds and a microsecond part, as capture
//! files store it. Its mathematical value is the total number of microseconds
//! since the epoch; every contract in this module is stated over that value.

use vstd::prelude::*;

verus! {

/// The number of microseconds in a second.
pub const MICROS_PER_SECOND: u32 = 1_000_000;

/// A point in capture time: seconds since the epoch plus a microsecond part.
#[derive(Clone, Copy, Debug, PartialEq, Eq, Structural)]
pub struct Timestamp {
    pub secs: u64,
    pub micros: u32,
}

/// A non-negative length of time: whole seconds plus a microsecond part.
#[derive(Clone, Copy, Debug, PartialEq, Eq, Structural)]
pub struct Span {
    pub secs: u64,
    pub micros: u32,
}

/// A signed length of time, kept as a sign and a magnitude.
///
/// Zero is never negative, so equal values have equal representations.
#[derive(Clone, Copy, Debug, PartialEq, Eq, Structural)]
pub struct SignedSpan {
    pub negative: bool,
    pub magnitude: Span,
}

impl Span {
    /// The microsecond part stays below one second.
    pub open spec fn wf(self) -> bool {
        self.micros < MICROS_PER_SECOND
    }

    /// The length in microseconds.
    pub open spec fn as_micros(self) -> int {
        self.secs as int * 1_000_000 + self.micros as int
    }

    /// Whether the span is well formed; see [`Span::wf`].
    pub fn is_well_formed(&self) -> (r: bool)
        ensures
            r == self.wf(),
    {
        self.micros < MICROS_PER_SECOND
    }

    /// The zero span.
    pub fn zero() -> (r: Span)
        ensures
            r.wf(),
            r.as_micros() == 0,
            r == (Span { secs: 0, micros: 0 }),
    {
        Span { secs: 0, micros: 0 }
    }

    /// Builds a span, refusing a microsecond part of a second or more.
    pub fn new(secs: u64, micros: u32) -> (r: Option<Span>)
        ensures
            r == if micros < MICROS_PER_SECOND {
                Some(Span { secs, micros })
            } else {
                None::<Span>
            },
    {
        if micros < MICROS_PER_SECOND {
            Some(Span { secs, micros })
        } else {
            None
        }
    }

    /// A span of whole seconds.
    pub fn from_secs(secs: u64) -> (r: Span)
        ensures
            r.wf(),
            r.as_micros() == secs as int * 1_000_000,
    {
        Span { secs, micros: 0 }
    }

    /// A span of whole milliseconds.
    pub fn from_millis(millis: u64) -> (r: Span)
        ensures
            r.wf(),
            r.as_micros() == millis as int * 1_000,
    {
        let secs: u64 = millis / 1_000;
        let rest: u64 = millis % 1_000;
        let micros: u32 = (rest * 1_000) as u32;
        Span { secs, micros }
    }

    /// The length in microseconds, as a machine integer.
    pub fn total_micros(self) -> (r: u128)
        ensures
            r as int == self.as_micros(),
    {
        self.secs as u128 * 1_000_000 + self.micros as u128
    }

    /// Whether `self` is at least as long as `other`.
    pub fn at_least(self, other: Span) -> (r: bool)
        requires
            self.wf(),
            other.wf(),
        ensures
            r == (self.as_micros() >= other.as_micros()),
    {
        self.secs > other.secs || (self.secs == other.secs && self.micros >= other.micros)
    }

    /// Whether the span has no length.
    pub fn is_zero(self) -> (r: bool)
        ensures
            r == (self.as_micros() == 0),
    {
        self.secs == 0 && self.micros == 0
    }
}

impl SignedSpan {
    /// The magnitude is well formed and zero carries no sign.
    pub open spec fn wf(self) -> bool {
        &&& self.magnitude.wf()
        &&& self.negative ==> self.magnitude.as_micros() > 0
    }

    /// The signed length in microseconds.
    pub open spec fn as_micros(self) -> int {
        if self.negative {
            -self.magnitude.as_micros()
        } else {
            self.magnitude.as_micros()
        }
    }

    /// Whether the span is strictly positive.
    pub fn is_positive(self) -> (r: bool)
        requires
            self.wf(),
        ensures
            r == (self.as_micros() > 0),
    {
        !self.negative && !self.magnitude.is_zero()
    }

    /// The span itself when it is positive, the zero span otherwise.
    pub fn clamped(self) -> (r: Span)
        requires
            self.wf(),
        ensures
            r.wf(),
            r.as_micros() == if self.as_micros() > 0 { self.as_micros() } else { 0 },
    {
        if self.negative {
            Span::zero()
        } else {
            self.magnitude
        }
    }
}

impl Timestamp {
    /// The microsecond part stays below one second.
    pub open spec fn wf(self) -> bool {
        self.micros < MICROS_PER_SECOND
    }

    /// Microseconds since the epoch.
    pub open spec fn as_micros(self) -> int {
        self.secs as int * 1_000_000 + self.micros as int
    }

    /// Whether the timestamp is well formed; see [`Timestamp::wf`].
    pub fn is_well_formed(&self) -> (r: bool)
        ensures
            r == self.wf(),
    {
        self.micros < MICROS_PER_SECOND
    }

    /// Builds a timestamp, refusing a microsecond part of a second or more.
    pub fn new(secs: u64, micros: u32) -> (r: Option<Timestamp>)
        ensures
            r == if micros < MICROS_PER_SECOND {
                Some(Timestamp { secs, micros })
            } else {
                None::<Timestamp>
            },
    {
        if micros < MICROS_PER_SECOND {
            Some(Timestamp { secs, micros })
        } else {
            None
        }
    }

    /// Microseconds since the epoch, as a machine integer.
    pub fn total_micros(self) -> (r: u128)
        ensures
            r as int == self.as_micros(),
    {
        self.secs as u128 * 1_000_000 + self.micros as u128
    }

    /// Whether `self` lies strictly before `other`.
    pub fn is_before(self, other: Timestamp) -> (r: bool)
        requires
            self.wf(),
            other.wf(),
        ensures
            r == (self.as_micros() < other.as_micros()),
    {
        self.secs < other.secs || (self.secs == other.secs && self.micros < other.micros)
    }

    /// The time from `earlier` to `self`, for `self` not before `earlier`.
    ///
    /// The two fields are subtracted with a borrow: when the microsecond part
    /// of `self` is the smaller one, a second is taken from the seconds and
    /// added to it as a million microseconds before subtracting.
    fn forward_distance(self, earlier: Timestamp) -> (r: Span)
        requires
            self.wf(),
            earlier.wf(),
            earlier.as_micros() <= self.as_micros(),
        ensures
            r.wf(),
            r.as_micros() == self.as_micros() - earlier.as_micros(),
    {
        if self.micros >= earlier.micros {
            Span { secs: self.secs - earlier.secs, micros: self.micros - earlier.micros }
        } else {
            Span {
                secs: self.secs - earlier.secs - 1,
                micros: self.micros + MICROS_PER_SECOND - earlier.micros,
            }
        }
    }

    /// The signed time from `earlier` to `self`.
    ///
    /// The result is negative exactly when `self` lies before `earlier`.
    pub fn signed_delta(self, earlier: Timestamp) -> (d: SignedSpan)
        requires
            self.wf(),
            earlier.wf(),
        ensures
            d.wf(),
            d.as_micros() == self.as_micros() - earlier.as_micros(),
    {
        if self.is_before(earlier) {
            SignedSpan { negative: true, magnitude: earlier.forward_distance(self) }
        } else {
            SignedSpan { negative: false, magnitude: self.forward_distance(earlier) }
        }
    }

    /// The time from `earlier` to `self`, or zero when `self` lies before
    /// `earlier`.
    pub fn elapsed_since(self, earlier: Timestamp) -> (r: Span)
        requires
            self.wf(),
            earlier.wf(),
        ensures
            r.wf(),
            r.as_micros() == if self.as_micros() > earlier.as_micros() {
                self.as_micros() - earlier.as_micros()
            } else {
                0
            },
    {
        self.signed_delta(earlier).clamped()
    }
}

/// A well-formed span is determined by its length.
pub proof fn lemma_span_determined_by_length(a: Span, b: Span)
    requires
        a.wf(),
        b.wf(),
        a.as_micros() == b.as_micros(),
    ensures
        a == b,
{
}

/// A well-formed timestamp is determined by its microsecond count.
pub proof fn lemma_timestamp_determined_by_micros(a: Timestamp, b: Timestamp)
    requires
        a.wf(),
        b.wf(),
        a.as_micros() == b.as_micros(),
    ensures
        a == b,
{
}

} // verus!
