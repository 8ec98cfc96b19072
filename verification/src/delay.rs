//! Delays between the frames of an animated cursor: whole seconds and the nanoseconds
//! beyond them, as `std::time::Duration` holds them.
use vstd::prelude::*;

verus! {

/// Nanoseconds in a second.
pub const NANOS_PER_SEC: u32 = 1_000_000_000;

/// Nanoseconds in a millisecond.
pub const NANOS_PER_MILLI: u32 = 1_000_000;

/// Milliseconds in a second.
pub const MILLIS_PER_SEC: u64 = 1_000;

/// Whole milliseconds in a delay of `d.0` seconds and `d.1` nanoseconds.
pub open spec fn millis_of(d: (u64, u32)) -> int {
    d.0 * MILLIS_PER_SEC + d.1 / NANOS_PER_MILLI
}

/// The delay of `ms` milliseconds, as seconds and nanoseconds.
pub open spec fn delay_of_millis(ms: u64) -> (u64, u32) {
    ((ms / MILLIS_PER_SEC) as u64, ((ms % MILLIS_PER_SEC) * NANOS_PER_MILLI) as u32)
}

/// A delay of whole milliseconds gives back that many milliseconds.
pub proof fn lemma_millis_of_delay_of_millis(ms: u64)
    ensures
        delay_of_millis(ms).1 < NANOS_PER_SEC,
        millis_of(delay_of_millis(ms)) == ms,
{
    let s = ms / 1000;
    let r = ms % 1000;
    assert(s * 1000 + r == ms && r < 1000) by (nonlinear_arith)
        requires
            s == ms / 1000,
            r == ms % 1000,
    ;
    assert((r * 1_000_000) / 1_000_000 == r) by (nonlinear_arith);
}

/// The whole milliseconds of a delay are its nanoseconds divided by a million, rounded down.
pub proof fn lemma_millis_of_rounds_down(d: (u64, u32))
    requires
        d.1 < NANOS_PER_SEC,
    ensures
        millis_of(d) * 1_000_000 <= d.0 * 1_000_000_000 + d.1 < (millis_of(d) + 1) * 1_000_000,
{
    let q = d.1 / 1_000_000;
    assert(q * 1_000_000 <= d.1 < (q + 1) * 1_000_000) by (nonlinear_arith)
        requires
            q == d.1 / 1_000_000,
    ;
}

/// A delay of `ms` milliseconds is `ms` million nanoseconds, with fewer than a second's
/// nanoseconds beyond the whole seconds.
pub proof fn lemma_delay_of_millis_length(ms: u64)
    ensures
        delay_of_millis(ms).0 * 1_000_000_000 + delay_of_millis(ms).1 == ms * 1_000_000,
        delay_of_millis(ms).1 < NANOS_PER_SEC,
{
    let s = ms / 1000;
    let r = ms % 1000;
    assert(s * 1000 + r == ms && r < 1000) by (nonlinear_arith)
        requires
            s == ms / 1000,
            r == ms % 1000,
    ;
    assert(s * 1_000_000_000 + r * 1_000_000 == ms * 1_000_000) by (nonlinear_arith)
        requires
            s * 1000 + r == ms,
    ;
}

/// A span of time: whole seconds and the nanoseconds beyond them.
#[derive(Debug, Clone, Copy, PartialEq, Eq, Structural)]
pub struct Delay {
    secs: u64,
    nanos: u32,
}

impl View for Delay {
    type V = (u64, u32);

    /// Seconds and nanoseconds.
    closed spec fn view(&self) -> (u64, u32) {
        (self.secs, self.nanos)
    }
}

impl Delay {
    /// The nanoseconds of a delay are fewer than a second's.
    #[verifier::type_invariant]
    pub open spec fn nanos_below_second(self) -> bool {
        self@.1 < NANOS_PER_SEC
    }

    /// A delay of `secs` seconds and `nanos` nanoseconds; whole seconds among the nanoseconds
    /// are carried into the seconds.
    pub fn new(secs: u64, nanos: u32) -> (d: Self)
        requires
            secs + nanos / NANOS_PER_SEC <= u64::MAX,
        ensures
            d@ == ((secs + nanos / NANOS_PER_SEC) as u64, nanos % NANOS_PER_SEC),
            d@.0 * 1_000_000_000 + d@.1 == secs * 1_000_000_000 + nanos,
            d@.1 < NANOS_PER_SEC,
    {
        assert((nanos / 1_000_000_000) * 1_000_000_000 + nanos % 1_000_000_000 == nanos)
            by (nonlinear_arith);
        Delay { secs: secs + (nanos / NANOS_PER_SEC) as u64, nanos: nanos % NANOS_PER_SEC }
    }

    /// A delay of `ms` milliseconds.
    pub fn from_millis(ms: u64) -> (d: Self)
        ensures
            d@ == delay_of_millis(ms),
    {
        proof {
            lemma_millis_of_delay_of_millis(ms);
        }
        Delay { secs: ms / MILLIS_PER_SEC, nanos: ((ms % MILLIS_PER_SEC) as u32) * NANOS_PER_MILLI }
    }

    /// Whole milliseconds in the delay.
    pub fn as_millis(&self) -> (ms: u128)
        ensures
            ms == millis_of(self@),
    {
        let secs = self.secs as u128;
        assert(secs * 1000 <= 0xFFFF_FFFF_FFFF_FFFF * 1000) by (nonlinear_arith)
            requires
                secs <= 0xFFFF_FFFF_FFFF_FFFF,
        ;
        secs * 1000 + (self.nanos / NANOS_PER_MILLI) as u128
    }

    /// Whole seconds in the delay.
    pub fn as_secs(&self) -> (s: u64)
        ensures
            s == self@.0,
    {
        self.secs
    }

    /// Nanoseconds beyond the whole seconds.
    pub fn subsec_nanos(&self) -> (n: u32)
        ensures
            n == self@.1,
            n < NANOS_PER_SEC,
    {
        proof {
            use_type_invariant(self);
        }
        self.nanos
    }
}

} // verus!
