//! Spans of time, as PDUs carry them: whole seconds for timeouts and
//! hundredths of a second for the system uptime.
use vstd::prelude::*;

verus! {

/// A span of time: whole seconds and the nanoseconds beyond them.
#[derive(Clone, Copy, Debug, PartialEq, Eq, Structural, PartialOrd, Ord, Hash, Default)]
pub struct Duration {
    secs: u64,
    nanos: u32,
}

/// A duration's whole seconds and the nanoseconds beyond them.
pub struct DurationView {
    pub secs: u64,
    pub nanos: u32,
}

impl View for Duration {
    type V = DurationView;

    closed spec fn view(&self) -> DurationView {
        DurationView { secs: self.secs, nanos: self.nanos }
    }
}

/// The nanoseconds part is below one second.
pub open spec fn duration_wf(d: DurationView) -> bool {
    d.nanos < 1_000_000_000
}

/// The whole milliseconds of a duration.
pub open spec fn total_millis(d: DurationView) -> int {
    d.secs * 1000 + d.nanos / 1_000_000
}

/// The duration of `m` milliseconds.
pub open spec fn millis_view(m: u64) -> DurationView {
    DurationView { secs: m / 1000, nanos: ((m % 1000) * 1_000_000) as u32 }
}

/// A valid duration that is a whole number of hundredths of a second.
pub open spec fn whole_centis(d: DurationView) -> bool {
    duration_wf(d) && d.nanos % 10_000_000 == 0
}

/// A duration that is a whole number of hundredths of a second comes back
/// unchanged from its count of hundredths.
pub proof fn lemma_centis_round_trip(d: DurationView)
    requires
        whole_centis(d),
        total_millis(d) / 10 <= u32::MAX,
    ensures
        millis_view(((total_millis(d) / 10) * 10) as u64) == d,
{
    let k: int = d.nanos as int / 10_000_000;
    let s: int = d.secs as int;
    assert(d.nanos as int == k * 10_000_000);
    assert(0 <= k < 100);
    assert(d.nanos as int / 1_000_000 == k * 10) by (nonlinear_arith)
        requires
            d.nanos as int == k * 10_000_000,
            0 <= k,
    ;
    let t = total_millis(d);
    assert(t == s * 1000 + k * 10);
    assert(t / 10 == s * 100 + k) by (nonlinear_arith)
        requires
            t == s * 1000 + k * 10,
            0 <= k < 100,
            s >= 0,
    ;
    let m: int = (t / 10) * 10;
    assert(m == s * 1000 + k * 10) by (nonlinear_arith)
        requires
            t / 10 == s * 100 + k,
            m == (t / 10) * 10,
    ;
    assert(m / 1000 == s && m % 1000 == k * 10) by (nonlinear_arith)
        requires
            m == s * 1000 + k * 10,
            0 <= k < 100,
            s >= 0,
    ;
    assert((k * 10) * 1_000_000 == k * 10_000_000) by (nonlinear_arith);
}

impl Duration {
    /// A duration of `secs` whole seconds.
    pub fn from_secs(secs: u64) -> (r: Duration)
        ensures
            r@ == (DurationView { secs, nanos: 0 }),
    {
        Duration { secs, nanos: 0 }
    }

    /// A duration of `millis` milliseconds.
    pub fn from_millis(millis: u64) -> (r: Duration)
        ensures
            r@ == millis_view(millis),
            duration_wf(r@),
    {
        Duration { secs: millis / 1000, nanos: ((millis % 1000) * 1_000_000) as u32 }
    }

    /// The whole seconds.
    pub fn as_secs(&self) -> (r: u64)
        ensures
            r == self@.secs,
    {
        self.secs
    }

    /// The nanoseconds beyond the whole seconds.
    pub fn subsec_nanos(&self) -> (r: u32)
        ensures
            r == self@.nanos,
    {
        self.nanos
    }

    /// The whole milliseconds.
    pub fn as_millis(&self) -> (r: u128)
        ensures
            r == total_millis(self@),
    {
        self.secs as u128 * 1000 + (self.nanos / 1_000_000) as u128
    }
}

} // verus!
