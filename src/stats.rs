//! Latency samples and delivery counters, with interpolated percentiles.
use vstd::prelude::*;
use vstd::relations::{sorted_by, total_ordering};
use vstd::seq_lib::lemma_sorted_unique;

verus! {

/// Percentiles are given in basis points: 10000 stands for the 100th.
pub const BASIS_POINTS: u32 = 10000;

/// Percentile values are reported multiplied by this factor, so that the
/// interpolated fraction is exact.
pub const VALUE_SCALE: u128 = 10000;

/// The median, in basis points.
pub const P50: u32 = 5000;

/// The 95th percentile, in basis points.
pub const P95: u32 = 9500;

/// The 99th percentile, in basis points.
pub const P99: u32 = 9900;

/// Ascending order on samples.
pub open spec fn ascending() -> spec_fn(u64, u64) -> bool {
    |a: u64, b: u64| a <= b
}

/// The samples in ascending order.
pub open spec fn sorted_samples(s: Seq<u64>) -> Seq<u64> {
    s.sort_by(ascending())
}

/// A percentile above the 100th counts as the 100th.
pub open spec fn clamp_bp(p_bp: u32) -> int {
    if p_bp > BASIS_POINTS {
        BASIS_POINTS as int
    } else {
        p_bp as int
    }
}

/// The value at fractional rank `(n - 1) * p` of the sorted non-empty `s`,
/// interpolated linearly between the two order statistics around it, times
/// `VALUE_SCALE`.
pub open spec fn interpolated(s: Seq<u64>, p_bp: int) -> int {
    let h = (s.len() - 1) * p_bp;
    let i = h / BASIS_POINTS as int;
    let frac = h % BASIS_POINTS as int;
    if i + 1 < s.len() {
        s[i] * VALUE_SCALE + (s[i + 1] - s[i]) * frac
    } else {
        s[i] * VALUE_SCALE
    }
}

/// The percentile of the samples `s`, or none where there are no samples.
pub open spec fn percentile_spec(s: Seq<u64>, p_bp: u32) -> Option<u128> {
    if s.len() == 0 {
        None
    } else {
        Some(interpolated(sorted_samples(s), clamp_bp(p_bp)) as u128)
    }
}

/// Relies on `slice::sort_unstable`: the result holds the same samples, in
/// ascending order.
#[verifier::external_body]
fn sort_samples(v: &mut Vec<u64>)
    ensures
        sorted_by(final(v)@, ascending()),
        final(v)@.to_multiset() == old(v)@.to_multiset(),
{
    v.sort_unstable();
}

/// Ascending order is a total order.
pub proof fn lemma_ascending_total()
    ensures
        total_ordering(ascending()),
{
}

/// Percentile of samples that are already in ascending order: the exact
/// interpolated value, times `VALUE_SCALE`, or none for no samples.
pub fn percentile_of_sorted(v: &Vec<u64>, p_bp: u32) -> (r: Option<u128>)
    requires
        sorted_by(v@, ascending()),
    ensures
        v@.len() == 0 ==> r.is_none(),
        v@.len() > 0 ==> r == Some(interpolated(v@, clamp_bp(p_bp)) as u128),
{
    let n = v.len();
    if n == 0 {
        return None;
    }
    let p: u128 = if p_bp > BASIS_POINTS {
        BASIS_POINTS as u128
    } else {
        p_bp as u128
    };
    assert((n - 1) * p <= 0xffff_ffff_ffff_ffff * 10000) by (nonlinear_arith)
        requires
            n - 1 <= 0xffff_ffff_ffff_ffff,
            p <= 10000,
    ;
    let h: u128 = (n as u128 - 1) * p;
    assert(h <= (n - 1) * BASIS_POINTS) by (nonlinear_arith)
        requires
            h == (n - 1) * p,
            p <= BASIS_POINTS,
            n >= 1,
    ;
    let i = h / (BASIS_POINTS as u128);
    let frac = h % (BASIS_POINTS as u128);
    assert(i <= n - 1) by (nonlinear_arith)
        requires
            h <= (n - 1) * BASIS_POINTS,
            i == h / (BASIS_POINTS as u128),
    ;
    let i = i as usize;
    let x0 = v[i] as u128;
    if i + 1 < n {
        assert(ascending()(v@[i as int], v@[i + 1]));
        let x1 = v[i + 1] as u128;
        assert((x1 - x0) * frac <= 0xffff_ffff_ffff_ffff * 10000) by (nonlinear_arith)
            requires
                x1 - x0 <= 0xffff_ffff_ffff_ffff,
                x0 <= x1,
                frac < 10000,
        ;
        Some(x0 * VALUE_SCALE + (x1 - x0) * frac)
    } else {
        Some(x0 * VALUE_SCALE)
    }
}

/// Percentile of the samples, in any order: sorts a copy and interpolates
/// at fractional rank `(n - 1) * p`. The value comes times `VALUE_SCALE`;
/// with no samples there is no value.
pub fn percentile(data: &Vec<u64>, p_bp: u32) -> (r: Option<u128>)
    ensures
        r == percentile_spec(data@, p_bp),
{
    let mut v: Vec<u64> = Vec::new();
    let mut k: usize = 0;
    while k < data.len()
        invariant
            k <= data@.len(),
            v@ == data@.take(k as int),
        decreases data@.len() - k,
    {
        v.push(data[k]);
        k = k + 1;
        assert(v@ =~= data@.take(k as int));
    }
    assert(v@ =~= data@);
    sort_samples(&mut v);
    proof {
        lemma_ascending_total();
        data@.lemma_sort_by_ensures(ascending());
        lemma_sorted_unique(v@, sorted_samples(data@), ascending());
        broadcast use vstd::seq_lib::group_to_multiset_ensures;
        assert(v@.len() == data@.len()) by {
            assert(v@.to_multiset().len() == data@.to_multiset().len());
        }
    }
    percentile_of_sorted(&v, p_bp)
}

/// With a single sample, every percentile is that sample.
pub proof fn lemma_single_sample(x: u64, p_bp: u32)
    ensures
        percentile_spec(seq![x], p_bp) == Some((x * VALUE_SCALE) as u128),
{
    lemma_ascending_total();
    seq![x].lemma_sort_by_ensures(ascending());
    assert(sorted_by(seq![x], ascending()));
    assert(seq![x].to_multiset() == sorted_samples(seq![x]).to_multiset());
    lemma_sorted_unique(seq![x], sorted_samples(seq![x]), ascending());
    let s = sorted_samples(seq![x]);
    assert(s =~= seq![x]);
    assert(s.len() == 1);
    assert((s.len() - 1) * clamp_bp(p_bp) == 0) by (nonlinear_arith)
        requires
            s.len() == 1,
    ;
}

/// Time from a packet's arrival to now, in milliseconds; zero where the
/// clock reads earlier than the arrival.
pub fn latency_ms(arrival_ms: u64, now_ms: u64) -> (r: u64)
    ensures
        r == if now_ms >= arrival_ms {
            now_ms - arrival_ms
        } else {
            0
        },
{
    if now_ms >= arrival_ms {
        now_ms - arrival_ms
    } else {
        0
    }
}

/// One counter step that stops at the largest value instead of wrapping.
pub open spec fn bumped(x: u64) -> u64 {
    if x < u64::MAX {
        (x + 1) as u64
    } else {
        x
    }
}

/// What one reporting cycle shows.
#[derive(Clone, Copy, Debug, PartialEq, Eq, Structural)]
pub struct Report {
    /// Percentiles of the latency samples, times `VALUE_SCALE`; none when
    /// no sample was recorded.
    pub p50: Option<u128>,
    pub p95: Option<u128>,
    pub p99: Option<u128>,
    pub succeeded: u64,
    pub failed: u64,
}

/// Latency samples and delivery counters of one reporting cycle.
pub struct Statistics {
    samples: Vec<u64>,
    succeeded: u64,
    failed: u64,
}

impl Statistics {
    /// Latencies recorded in this cycle, in the order recorded.
    pub closed spec fn samples(&self) -> Seq<u64> {
        self.samples@
    }

    /// Deliveries that succeeded in this cycle.
    pub closed spec fn succeeded(&self) -> u64 {
        self.succeeded
    }

    /// Deliveries that failed in this cycle.
    pub closed spec fn failed(&self) -> u64 {
        self.failed
    }

    /// An accumulator with nothing recorded.
    pub fn new() -> (r: Statistics)
        ensures
            r.samples() == Seq::<u64>::empty(),
            r.succeeded() == 0,
            r.failed() == 0,
    {
        Statistics { samples: Vec::new(), succeeded: 0, failed: 0 }
    }

    /// Records one forwarded packet: its latency, and whether sending it
    /// succeeded. Counters stop at their largest value.
    pub fn record(&mut self, latency_ms: u64, delivered: bool)
        ensures
            final(self).samples() == old(self).samples().push(latency_ms),
            final(self).succeeded() == if delivered {
                bumped(old(self).succeeded())
            } else {
                old(self).succeeded()
            },
            final(self).failed() == if delivered {
                old(self).failed()
            } else {
                bumped(old(self).failed())
            },
    {
        self.samples.push(latency_ms);
        if delivered {
            if self.succeeded < u64::MAX {
                self.succeeded = self.succeeded + 1;
            }
        } else {
            if self.failed < u64::MAX {
                self.failed = self.failed + 1;
            }
        }
    }

    /// The median, 95th and 99th percentiles and the counters of this cycle.
    pub fn report(&self) -> (r: Report)
        ensures
            r.p50 == percentile_spec(self.samples(), P50),
            r.p95 == percentile_spec(self.samples(), P95),
            r.p99 == percentile_spec(self.samples(), P99),
            r.succeeded == self.succeeded(),
            r.failed == self.failed(),
    {
        Report {
            p50: percentile(&self.samples, P50),
            p95: percentile(&self.samples, P95),
            p99: percentile(&self.samples, P99),
            succeeded: self.succeeded,
            failed: self.failed,
        }
    }

    /// Starts a new reporting cycle: samples and counters are cleared.
    pub fn reset(&mut self)
        ensures
            final(self).samples() == Seq::<u64>::empty(),
            final(self).succeeded() == 0,
            final(self).failed() == 0,
    {
        self.samples.clear();
        self.succeeded = 0;
        self.failed = 0;
    }
}

} // verus!
