//! Spans of time, to the nanosecond.

use vstd::prelude::*;

use crate::text;

verus! {

/// Nanoseconds in a second.
pub const NANOS_PER_SEC: u32 = 1_000_000_000;

/// A span of time: whole seconds and the nanoseconds beyond them.
#[derive(Debug, Clone, Copy, PartialEq, Eq, Structural)]
pub struct Duration {
    secs: u64,
    nanos: u32,
}

/// A number of seconds with one decimal place, as the standard formatter rounds it.
pub uninterp spec fn seconds_shown(secs: u64, nanos: u32) -> Seq<char>;

/// The most seconds up to which single precision holds every whole number exactly.
pub const EXACT_SECS: u64 = 16_777_216;

/// A number of seconds with one decimal place, spelled out for whole seconds.
pub open spec fn seconds_written(secs: u64, nanos: u32) -> Seq<char> {
    if nanos == 0 && secs <= EXACT_SECS {
        text::decimal(secs as nat) + ".0"@
    } else {
        seconds_shown(secs, nanos)
    }
}

/// Trusted: `format!("{:.1}", ..)` of `std::time::Duration::as_secs_f32` is a function of the span
/// alone. Whole seconds that single precision holds exactly are written in decimal, with a zero
/// behind the point. How anything else is rounded to one decimal place is left unsaid.
#[verifier::external_body]
fn seconds_text(secs: u64, nanos: u32) -> (r: String)
    requires
        nanos < NANOS_PER_SEC,
    ensures
        r@ == seconds_shown(secs, nanos),
        nanos == 0 && secs <= EXACT_SECS ==> r@ == text::decimal(secs as nat) + ".0"@,
{
    format!("{:.1}", std::time::Duration::new(secs, nanos).as_secs_f32())
}

impl Duration {
    #[verifier::type_invariant]
    spec fn wf(self) -> bool {
        self.nanos < NANOS_PER_SEC
    }

    /// The whole seconds.
    pub closed spec fn whole(self) -> u64 {
        self.secs
    }

    /// The nanoseconds beyond the whole seconds.
    pub closed spec fn beyond(self) -> u32 {
        self.nanos
    }

    /// The span in nanoseconds.
    pub open spec fn view(self) -> nat {
        (self.whole() * NANOS_PER_SEC + self.beyond()) as nat
    }

    /// The empty span.
    pub fn zero() -> (r: Self)
        ensures
            r@ == 0,
    {
        Duration { secs: 0, nanos: 0 }
    }

    /// A span of seconds and nanoseconds.
    pub fn new(secs: u64, nanos: u32) -> (r: Option<Self>)
        ensures
            match r {
                Some(span) => nanos < NANOS_PER_SEC && span.whole() == secs && span.beyond()
                    == nanos,
                None => nanos >= NANOS_PER_SEC,
            },
    {
        if nanos < NANOS_PER_SEC {
            Some(Duration { secs, nanos })
        } else {
            None
        }
    }

    /// A span of whole seconds.
    pub fn from_secs(secs: u64) -> (r: Self)
        ensures
            r.whole() == secs,
            r.beyond() == 0,
            r@ == secs * NANOS_PER_SEC,
    {
        Duration { secs, nanos: 0 }
    }

    /// A span of milliseconds.
    pub fn from_millis(millis: u64) -> (r: Self)
        ensures
            r@ == millis * 1_000_000,
    {
        Duration { secs: millis / 1000, nanos: ((millis % 1000) as u32) * 1_000_000 }
    }

    /// The whole milliseconds of the span.
    pub fn as_millis(&self) -> (r: u128)
        ensures
            r == self@ / 1_000_000,
    {
        proof {
            use_type_invariant(self);
        }
        self.secs as u128 * 1000 + (self.nanos / 1_000_000) as u128
    }

    /// The whole seconds of the span.
    pub fn as_secs(&self) -> (r: u64)
        ensures
            r == self.whole(),
    {
        self.secs
    }

    /// The nanoseconds beyond the whole seconds.
    pub fn subsec_nanos(&self) -> (r: u32)
        ensures
            r == self.beyond(),
            r < NANOS_PER_SEC,
    {
        proof {
            use_type_invariant(self);
        }
        self.nanos
    }

    /// Whether the span is empty.
    pub fn is_zero(&self) -> (r: bool)
        ensures
            r == (self@ == 0),
    {
        self.secs == 0 && self.nanos == 0
    }

    /// Whether this span is shorter than another.
    pub fn is_below(&self, other: Duration) -> (r: bool)
        ensures
            r == (self@ < other@),
    {
        proof {
            use_type_invariant(self);
            use_type_invariant(&other);
        }
        self.secs < other.secs || (self.secs == other.secs && self.nanos < other.nanos)
    }

    /// The shorter of two spans.
    pub fn min(self, other: Duration) -> (r: Self)
        ensures
            r == (if self@ <= other@ {
                self
            } else {
                other
            }),
    {
        if other.is_below(self) {
            other
        } else {
            self
        }
    }

    /// The span in seconds, with one decimal place.
    pub fn seconds(&self) -> (r: String)
        ensures
            r@ == seconds_written(self.whole(), self.beyond()),
    {
        proof {
            use_type_invariant(self);
        }
        seconds_text(self.secs, self.nanos)
    }
}

} // verus!
