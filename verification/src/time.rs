//! Spans of time.
use vstd::prelude::*;

verus! {

/// A span of time, in seconds and the nanoseconds beyond them.
#[derive(Debug, Clone, Copy, PartialEq, Eq, Structural)]
pub struct Span {
    /// Whole seconds.
    pub secs: u64,
    /// Nanoseconds beyond the last whole second.
    pub nanos: u32,
}

impl Span {
    /// The span in nanoseconds.
    pub open spec fn total(self) -> nat {
        (self.secs as nat) * 1_000_000_000 + self.nanos as nat
    }

    /// Whether the nanoseconds are fewer than a second's.
    pub open spec fn ok(self) -> bool {
        self.nanos < 1_000_000_000
    }

    /// A number of seconds.
    pub fn from_secs(secs: u64) -> (r: Span)
        ensures
            r == (Span { secs, nanos: 0 }),
            r.ok(),
    {
        Span { secs, nanos: 0 }
    }

    /// A number of milliseconds.
    pub fn from_millis(millis: u64) -> (r: Span)
        ensures
            r == span_of_millis(millis),
            r.ok(),
            r.total() == (millis as nat) * 1_000_000,
    {
        let rest: u64 = millis % 1000;
        Span { secs: millis / 1000, nanos: (rest * 1_000_000) as u32 }
    }

    /// Whether this span is shorter than another.
    pub fn shorter_than(&self, other: &Span) -> (r: bool)
        requires
            self.ok(),
            other.ok(),
        ensures
            r == (self.total() < other.total()),
    {
        self.secs < other.secs || (self.secs == other.secs && self.nanos < other.nanos)
    }

    /// Whether the span is none at all.
    pub fn is_zero(&self) -> (r: bool)
        ensures
            r == (self.total() == 0),
    {
        self.secs == 0 && self.nanos == 0
    }

    /// How long after an earlier moment this one comes; none at all where it
    /// comes before.
    pub fn since(&self, earlier: &Span) -> (r: Span)
        requires
            self.ok(),
            earlier.ok(),
        ensures
            r == span_since(*self, *earlier),
            r.ok(),
            r.total() == if self.total() >= earlier.total() {
                (self.total() - earlier.total()) as nat
            } else {
                0
            },
    {
        if self.shorter_than(earlier) {
            Span { secs: 0, nanos: 0 }
        } else if self.nanos >= earlier.nanos {
            Span { secs: self.secs - earlier.secs, nanos: self.nanos - earlier.nanos }
        } else {
            Span {
                secs: self.secs - earlier.secs - 1,
                nanos: self.nanos + 1_000_000_000 - earlier.nanos,
            }
        }
    }

    /// The moment a span after this one.
    pub fn plus(&self, span: &Span) -> (r: Span)
        requires
            self.ok(),
            span.ok(),
            self.secs + span.secs < u64::MAX,
        ensures
            r == span_plus(*self, *span),
            r.ok(),
            r.total() == self.total() + span.total(),
    {
        let nanos: u32 = self.nanos + span.nanos;
        if nanos >= 1_000_000_000 {
            Span { secs: self.secs + span.secs + 1, nanos: nanos - 1_000_000_000 }
        } else {
            Span { secs: self.secs + span.secs, nanos }
        }
    }

    /// The whole milliseconds of the span, as far as they fit in 64 bits.
    pub fn as_millis(&self) -> (r: u64)
        requires
            self.ok(),
            self.total() / 1_000_000 <= u64::MAX,
        ensures
            r == self.total() / 1_000_000,
    {
        let millis: u128 = (self.secs as u128) * 1000 + (self.nanos / 1_000_000) as u128;
        assert(millis == self.total() / 1_000_000) by {
            let s = self.secs as int;
            let n = self.nanos as int;
            assert((s * 1_000_000_000 + n) / 1_000_000 == s * 1000 + n / 1_000_000);
        }
        millis as u64
    }
}

/// How long after an earlier moment a later one comes.
pub open spec fn span_since(later: Span, earlier: Span) -> Span {
    if later.total() < earlier.total() {
        Span { secs: 0, nanos: 0 }
    } else if later.nanos >= earlier.nanos {
        Span {
            secs: (later.secs - earlier.secs) as u64,
            nanos: (later.nanos - earlier.nanos) as u32,
        }
    } else {
        Span {
            secs: (later.secs - earlier.secs - 1) as u64,
            nanos: (later.nanos + 1_000_000_000 - earlier.nanos) as u32,
        }
    }
}

/// The moment a span after another.
pub open spec fn span_plus(moment: Span, span: Span) -> Span {
    if moment.nanos + span.nanos >= 1_000_000_000 {
        Span {
            secs: (moment.secs + span.secs + 1) as u64,
            nanos: (moment.nanos + span.nanos - 1_000_000_000) as u32,
        }
    } else {
        Span {
            secs: (moment.secs + span.secs) as u64,
            nanos: (moment.nanos + span.nanos) as u32,
        }
    }
}

/// A number of milliseconds as a span.
pub open spec fn span_of_millis(millis: u64) -> Span {
    Span { secs: millis / 1000, nanos: ((millis % 1000) * 1_000_000) as u32 }
}

/// A number of seconds as a span.
pub open spec fn span_of_secs(secs: u64) -> Span {
    Span { secs, nanos: 0 }
}

// --- the clock --------------------------------------------------------------

/// `std::time::Instant`: a moment on the monotonic clock, opaque here.
#[verifier::external_type_specification]
#[verifier::external_body]
pub struct ExInstant(std::time::Instant);

/// `std::time::Instant::now`: the current moment. Nothing is claimed of it.
#[verifier::external_body]
fn now() -> std::time::Instant {
    std::time::Instant::now()
}

/// `std::time::Instant::elapsed`: the time since a moment, in seconds and the
/// nanoseconds beyond them, which are fewer than a second's. Nothing is claimed
/// of how long it is.
#[verifier::external_body]
fn elapsed(moment: &std::time::Instant) -> (r: Span)
    ensures
        r.ok(),
{
    let d = moment.elapsed();
    Span { secs: d.as_secs(), nanos: d.subsec_nanos() }
}

/// A clock that reads the time since it was started.
#[derive(Debug)]
pub struct Clock {
    origin: std::time::Instant,
}

impl Clock {
    /// A clock that starts now.
    pub fn start() -> (r: Clock) {
        Clock { origin: now() }
    }

    /// The time since the clock was started.
    pub fn read(&self) -> (r: Span)
        ensures
            r.ok(),
    {
        elapsed(&self.origin)
    }
}

/// How std's `Debug` writes a duration of so many seconds and nanoseconds.
pub uninterp spec fn duration_text(secs: u64, nanos: u32) -> Seq<char>;

/// `std::time::Duration`'s `Debug`: a duration as it is written for people. It
/// depends on the seconds and nanoseconds alone.
#[verifier::external_body]
pub(crate) fn show(span: &Span) -> (r: String)
    requires
        span.ok(),
    ensures
        r@ == duration_text(span.secs, span.nanos),
{
    format!("{:?}", std::time::Duration::new(span.secs, span.nanos))
}

/// A millisecond is a million nanoseconds.
pub proof fn lemma_millis(millis: u64)
    ensures
        span_of_millis(millis).total() == millis * 1_000_000,
        span_of_millis(millis).ok(),
{
}

/// A moment moved on by a span is that much later, and the span between the two is the
/// span it was moved by; no span is shorter than none.
pub proof fn law_moving_on_and_looking_back(moment: Span, span: Span)
    requires
        moment.ok(),
        span.ok(),
        moment.secs + span.secs < u64::MAX,
    ensures
        span_plus(moment, span).total() == moment.total() + span.total(),
        span_plus(moment, span).ok(),
        span_since(span_plus(moment, span), moment) == span,
        span_since(moment, span_plus(moment, span)).total() == 0,
{
}

/// The span between two moments is the difference between them, or nothing where the
/// second is the earlier one.
pub proof fn law_a_span_is_the_difference(later: Span, earlier: Span)
    requires
        later.ok(),
        earlier.ok(),
    ensures
        earlier.total() <= later.total() ==> span_since(later, earlier).total() == later.total()
            - earlier.total(),
        later.total() < earlier.total() ==> span_since(later, earlier).total() == 0,
        span_since(later, earlier).ok(),
{
}

/// A number of seconds is that many whole seconds.
pub proof fn law_spans_are_measured(secs: u64, millis: u64)
    ensures
        span_of_secs(secs).total() == secs * 1_000_000_000,
        span_of_millis(millis).total() == millis * 1_000_000,
{
    lemma_millis(millis);
}

} // verus!
