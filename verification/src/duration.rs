//! A span of time, as whole seconds and nanoseconds.

use vstd::prelude::*;

verus! {

/// The number of nanoseconds in one second.
pub const NANOS_PER_SEC: u32 = 1_000_000_000;

/// A span of time.
#[derive(Clone, Copy, Debug, PartialEq, Eq, Structural)]
pub struct Duration {
    secs: u64,
    nanos: u32,
}

impl View for Duration {
    type V = nat;

    /// The length in nanoseconds.
    closed spec fn view(&self) -> nat {
        (self.secs * NANOS_PER_SEC + self.nanos) as nat
    }
}

impl Duration {
    #[verifier::type_invariant]
    closed spec fn well_formed(self) -> bool {
        self.nanos < NANOS_PER_SEC
    }

    /// The span of `secs` seconds.
    pub fn from_secs(secs: u64) -> (d: Duration)
        ensures
            d@ == secs * NANOS_PER_SEC,
    {
        Duration { secs, nanos: 0 }
    }

    /// The span of `millis` milliseconds.
    pub fn from_millis(millis: u64) -> (d: Duration)
        ensures
            d@ == millis * 1_000_000,
    {
        Duration { secs: millis / 1000, nanos: ((millis % 1000) as u32) * 1_000_000 }
    }

    /// The whole seconds in the span.
    pub fn as_secs(&self) -> (secs: u64)
        ensures
            secs == self@ / NANOS_PER_SEC as nat,
    {
        proof {
            use_type_invariant(self);
        }
        self.secs
    }

    /// The nanoseconds that the whole seconds leave.
    pub fn subsec_nanos(&self) -> (nanos: u32)
        ensures
            nanos == self@ % NANOS_PER_SEC as nat,
    {
        proof {
            use_type_invariant(self);
        }
        self.nanos
    }

    /// The span of `secs` seconds and `nanos` nanoseconds.
    pub fn new(secs: u64, nanos: u32) -> (d: Duration)
        requires
            nanos < NANOS_PER_SEC,
        ensures
            d@ == secs * NANOS_PER_SEC + nanos,
    {
        Duration { secs, nanos }
    }

    /// The span in seconds, as decimal text with `places` digits after the
    /// point.
    pub fn seconds(&self, places: usize) -> (text: String)
        requires
            places <= 9,
        ensures
            text@ == seconds_text(self@, places),
    {
        fixed_point(self.as_secs(), self.subsec_nanos(), places)
    }
}

/// A span of `nanos` nanoseconds in seconds, as decimal text with `places`
/// digits after the point.
pub open spec fn seconds_text(nanos: nat, places: usize) -> Seq<char> {
    fixed_seconds(
        (nanos / NANOS_PER_SEC as nat) as u64,
        (nanos % NANOS_PER_SEC as nat) as u32,
        places,
    )
}

/// What `{:.places}` prints for a span of `secs` seconds and `nanos`
/// nanoseconds, taken as a number of seconds.
pub uninterp spec fn fixed_seconds(secs: u64, nanos: u32, places: usize) -> Seq<char>;

/// Formats a span with `std`'s precision formatting of a number of seconds.
/// The text depends on the span and on the number of places alone; how the
/// last place is rounded is not stated.
#[verifier::external_body]
fn fixed_point(secs: u64, nanos: u32, places: usize) -> (text: String)
    requires
        nanos < NANOS_PER_SEC,
        places <= 9,
    ensures
        text@ == fixed_seconds(secs, nanos, places),
{
    format!("{:.*}", places, std::time::Duration::new(secs, nanos).as_secs_f64())
}

// ── laws ────────────────────────────────────────────────────────────────────

/// What is shown of a span is that of its own seconds and nanoseconds.
pub proof fn law_span_is_shown(secs: u64, nanos: u32, places: usize)
    requires
        nanos < NANOS_PER_SEC,
    ensures
        seconds_text((secs * NANOS_PER_SEC + nanos) as nat, places) == fixed_seconds(
            secs,
            nanos,
            places,
        ),
{
    let n = (secs * NANOS_PER_SEC + nanos) as nat;
    assert(n / 1_000_000_000 == secs && n % 1_000_000_000 == nanos) by (nonlinear_arith)
        requires
            n == secs * 1_000_000_000 + nanos,
            nanos < 1_000_000_000,
    ;
}

} // verus!
