//! Derivation of the session figures and of the smoothed series.
//!
//! Everything here is a pure function from the ordered record sequence and
//! the session's assumed constants to the reported figures. Time is integer
//! nanoseconds and every quotient is an exact [`Ratio`], so each formula is
//! stated exactly:
//! - `total_bytes = records * chunk_size_bytes`, also under early abort;
//! - `total_time = sum of the per-chunk durations`;
//! - `avg_effective_rate_bps = total_bytes * 8 / total_time_seconds`;
//! - `bdp_bits = avg_effective_rate_bps * rtt_seconds`;
//! - `tcp_throughput_bps = tcp_window_bytes * 8 / rtt_seconds`;
//! - each smoothed element is the arithmetic mean of its window.

use vstd::prelude::*;
use crate::config::SessionConfig;
use crate::ratio::Ratio;
use crate::record::ChunkRecord;

verus! {

/// Bound on one smoothing sample; far above any rate or duration a
/// well-formed record can carry, and small enough that a window sum of
/// samples fits in `u128`.
pub const SAMPLE_BOUND: u128 = 0x10_0000_0000_0000_0000_0000_0000;

/// Bound on the total bits handed to the average-rate formula.
pub const MAX_TOTAL_DATA_BITS: u128 = 0x1_0000_0000_0000_0000_0000;

/// Bound on the numerator of a bandwidth fed to the BDP formula.
pub const MAX_BANDWIDTH_NUM: u128 = 0x40_0000_0000_0000_0000_0000;

/// Bound on the denominator of a bandwidth fed to the BDP formula.
pub const MAX_BANDWIDTH_DEN: u128 = 0x400_0000_0000_0000_0000_0000;

/// Summary derivation fails exactly when it would divide by zero: no
/// records were collected, so the total transfer time is zero.
#[derive(Clone, Copy, PartialEq, Eq, Structural, Debug)]
pub enum MetricsError {
    DivideByZero,
}

/// The figures derived once, after the record sequence is final.
#[derive(Clone, Copy, PartialEq, Eq, Structural, Debug)]
pub struct SessionSummary {
    pub records_collected: u64,
    pub total_bytes: u128,
    pub total_time_nanos: u128,
    pub avg_effective_rate_bps: Ratio,
    pub bdp_bits: Ratio,
    pub tcp_throughput_bps: Ratio,
}

/// Sum of the per-chunk durations, in nanoseconds.
pub open spec fn sum_durations(records: Seq<ChunkRecord>) -> int
    decreases records.len(),
{
    if records.len() == 0 {
        0
    } else {
        sum_durations(records.drop_last()) + records.last().duration_nanos
    }
}

/// Sum of `w` consecutive samples starting at `start`.
pub open spec fn window_sum(samples: Seq<u128>, start: int, w: int) -> int
    recommends
        0 <= start,
        0 <= w,
        start + w <= samples.len(),
    decreases w,
{
    if w <= 0 {
        0
    } else {
        window_sum(samples, start, w - 1) + samples[start + w - 1]
    }
}

/// The durations of the records, in arrival order.
pub open spec fn duration_samples(records: Seq<ChunkRecord>) -> Seq<u128> {
    records.map(|i: int, r: ChunkRecord| r.duration_nanos as u128)
}

/// The per-chunk rates of the records, in arrival order.
pub open spec fn rate_samples(records: Seq<ChunkRecord>) -> Seq<u128> {
    records.map(|i: int, r: ChunkRecord| r.effective_rate_bps)
}

/// What the summary states of its inputs, every clause exact:
/// the totals, and each derived figure as the fraction its formula gives.
pub open spec fn summary_obeys(
    records: Seq<ChunkRecord>,
    config: SessionConfig,
    s: SessionSummary,
) -> bool {
    &&& s.records_collected == records.len()
    &&& s.total_bytes == records.len() * config.chunk_size_bytes
    &&& s.total_time_nanos == sum_durations(records)
    &&& s.avg_effective_rate_bps.wf()
    &&& s.avg_effective_rate_bps.is_fraction(
            s.total_bytes * 8 * 1_000_000_000,
            s.total_time_nanos as int,
        )
    &&& s.bdp_bits.wf()
    &&& s.bdp_bits.is_fraction(
            s.total_bytes * 8 * config.rtt_nanos,
            s.total_time_nanos as int,
        )
    &&& s.bdp_bits.num == s.avg_effective_rate_bps.num * config.rtt_nanos
    &&& s.bdp_bits.den == s.avg_effective_rate_bps.den * 1_000_000_000
    &&& s.tcp_throughput_bps.wf()
    &&& s.tcp_throughput_bps.is_fraction(
            config.tcp_window_bytes * 8 * 1_000_000_000,
            config.rtt_nanos as int,
        )
}

/// Every duration is at least one nanosecond, so the sum of `n` durations
/// lies between `n` and `n * u64::MAX`.
pub proof fn lemma_sum_durations_range(records: Seq<ChunkRecord>)
    requires
        forall|i: int| 0 <= i < records.len()
            ==> 1 <= (#[trigger] records[i]).duration_nanos,
    ensures
        records.len() <= sum_durations(records) <= records.len() * 0xffff_ffff_ffff_ffffu64,
    decreases records.len(),
{
    if records.len() > 0 {
        lemma_sum_durations_range(records.drop_last());
    }
}

/// The average rate achieved over the whole transfer:
/// `total_data_bits / total_time_seconds`, as an exact fraction.
pub fn calculate_effective_data_rate(total_data_bits: u128, total_time_nanos: u128) -> (r: Ratio)
    requires
        total_time_nanos > 0,
        total_data_bits < MAX_TOTAL_DATA_BITS,
    ensures
        r.wf(),
        r.num == total_data_bits * 1_000_000_000,
        r.den == total_time_nanos,
{
    Ratio::new(total_data_bits * 1_000_000_000, total_time_nanos)
}

/// The bandwidth-delay product: how many bits could be in flight at the
/// given rate and assumed round-trip time, `bandwidth_bps * rtt_seconds`.
pub fn calculate_bdp(bandwidth_bps: Ratio, rtt_nanos: u64) -> (r: Ratio)
    requires
        bandwidth_bps.wf(),
        1 <= rtt_nanos <= crate::config::MAX_RTT_NANOS,
        bandwidth_bps.num < MAX_BANDWIDTH_NUM,
        bandwidth_bps.den < MAX_BANDWIDTH_DEN,
    ensures
        r.wf(),
        r.num == bandwidth_bps.num * rtt_nanos,
        r.den == bandwidth_bps.den * 1_000_000_000,
{
    proof {
        assert(bandwidth_bps.num * rtt_nanos < MAX_BANDWIDTH_NUM * crate::config::MAX_RTT_NANOS)
            by (nonlinear_arith)
            requires
                0 <= bandwidth_bps.num < MAX_BANDWIDTH_NUM,
                0 <= rtt_nanos <= crate::config::MAX_RTT_NANOS,
        ;
    }
    Ratio::new(bandwidth_bps.num * (rtt_nanos as u128), bandwidth_bps.den * 1_000_000_000)
}

/// The theoretical window-limited ceiling, independent of the observed
/// transfer: `tcp_window_bytes * 8 / rtt_seconds`.
pub fn calculate_tcp_throughput(tcp_window_bytes: u64, rtt_nanos: u64) -> (r: Ratio)
    requires
        1 <= tcp_window_bytes <= crate::config::MAX_TCP_WINDOW_BYTES,
        rtt_nanos >= 1,
    ensures
        r.wf(),
        r.num == tcp_window_bytes * 8 * 1_000_000_000,
        r.den == rtt_nanos,
{
    Ratio::new((tcp_window_bytes as u128) * 8 * 1_000_000_000, rtt_nanos as u128)
}

/// Derives the session summary from the records actually collected.
///
/// Succeeds if and only if at least one record was collected; on the empty
/// sequence the total time is zero and the derivation reports the division
/// by zero instead of producing meaningless figures.
pub fn summarize(records: &Vec<ChunkRecord>, config: &SessionConfig) -> (r: Result<
    SessionSummary,
    MetricsError,
>)
    requires
        config.wf(),
        records@.len() <= config.chunk_count,
        forall|i: int| 0 <= i < records@.len()
            ==> (#[trigger] records@[i]).wf(config.chunk_size_bytes as int),
    ensures
        match r {
            Ok(s) => records@.len() > 0 && summary_obeys(records@, *config, s),
            Err(e) => records@.len() == 0 && e == MetricsError::DivideByZero,
        },
{
    let n = records.len();
    if n == 0 {
        return Err(MetricsError::DivideByZero);
    }

    let mut total_time_nanos: u128 = 0;
    let mut i: usize = 0;
    while i < n
        invariant
            n == records@.len(),
            0 <= i <= n,
            total_time_nanos == sum_durations(records@.take(i as int)),
            total_time_nanos <= (i as int) * 0xffff_ffff_ffff_ffffu64,
            forall|k: int| 0 <= k < records@.len()
                ==> (#[trigger] records@[k]).wf(config.chunk_size_bytes as int),
        decreases n - i,
    {
        proof {
            assert(records@.take(i as int + 1).drop_last() =~= records@.take(i as int));
            assert(records@.take(i as int + 1).last() == records@[i as int]);
        }
        total_time_nanos = total_time_nanos + records[i].duration_nanos as u128;
        i = i + 1;
    }
    proof {
        assert(records@.take(n as int) =~= records@);
        lemma_sum_durations_range(records@);
    }

    proof {
        assert(n * config.chunk_size_bytes <= 0x10_0000_0000_0000int) by (nonlinear_arith)
            requires
                0 <= n <= crate::config::MAX_CHUNK_COUNT,
                0 <= config.chunk_size_bytes <= crate::config::MAX_CHUNK_SIZE_BYTES,
        ;
    }
    let total_bytes: u128 = (n as u128) * (config.chunk_size_bytes as u128);
    let total_data_bits: u128 = total_bytes * 8;
    let avg = calculate_effective_data_rate(total_data_bits, total_time_nanos);
    let bdp = calculate_bdp(avg, config.rtt_nanos);
    let tcp = calculate_tcp_throughput(config.tcp_window_bytes, config.rtt_nanos);
    proof {
        assert(bdp.num * (total_time_nanos as int)
            == (total_bytes * 8 * config.rtt_nanos) * bdp.den) by (nonlinear_arith)
            requires
                bdp.num == (total_data_bits * 1_000_000_000) * config.rtt_nanos,
                bdp.den == total_time_nanos * 1_000_000_000,
                total_data_bits == total_bytes * 8,
        ;
    }
    Ok(SessionSummary {
        records_collected: n as u64,
        total_bytes,
        total_time_nanos,
        avg_effective_rate_bps: avg,
        bdp_bits: bdp,
        tcp_throughput_bps: tcp,
    })
}

/// The smoothed presentation series: sliding-window arithmetic means of the
/// per-chunk durations and of the per-chunk rates.
pub struct SmoothedSeries {
    pub latencies: Vec<Ratio>,
    pub rates: Vec<Ratio>,
}

/// Sliding-window arithmetic means of `samples` with window length
/// `window`: `max(0, n - window + 1)` elements, element `i` the exact mean
/// of samples `[i, i + window)`.
pub fn sliding_means(samples: &Vec<u128>, window: usize) -> (r: Vec<Ratio>)
    requires
        1 <= window <= crate::config::MAX_SMOOTHING_WINDOW,
        forall|i: int| 0 <= i < samples@.len() ==> #[trigger] samples@[i] <= SAMPLE_BOUND,
    ensures
        samples@.len() >= window ==> r@.len() == samples@.len() - window + 1,
        samples@.len() < window ==> r@.len() == 0,
        forall|i: int| 0 <= i < r@.len() ==> (#[trigger] r@[i]).den == window,
        forall|i: int| 0 <= i < r@.len()
            ==> (#[trigger] r@[i]).num == window_sum(samples@, i, window as int),
        forall|i: int| 0 <= i < r@.len() ==> (#[trigger] r@[i]).wf(),
{
    let n = samples.len();
    let mut out: Vec<Ratio> = Vec::new();
    if n < window {
        return out;
    }
    let count = n - window + 1;
    let mut i: usize = 0;
    while i < count
        invariant
            n == samples@.len(),
            1 <= window <= crate::config::MAX_SMOOTHING_WINDOW,
            forall|k: int| 0 <= k < samples@.len() ==> #[trigger] samples@[k] <= SAMPLE_BOUND,
            count == n - window + 1,
            window <= n,
            0 <= i <= count,
            out@.len() == i,
            forall|k: int| 0 <= k < out@.len() ==> (#[trigger] out@[k]).den == window,
            forall|k: int| 0 <= k < out@.len()
                ==> (#[trigger] out@[k]).num == window_sum(samples@, k, window as int),
            forall|k: int| 0 <= k < out@.len() ==> (#[trigger] out@[k]).wf(),
        decreases count - i,
    {
        let mut acc: u128 = 0;
        let mut j: usize = 0;
        while j < window
            invariant
                n == samples@.len(),
                1 <= window <= crate::config::MAX_SMOOTHING_WINDOW,
                forall|k: int| 0 <= k < samples@.len() ==> #[trigger] samples@[k] <= SAMPLE_BOUND,
                i + window <= n,
                0 <= j <= window,
                acc == window_sum(samples@, i as int, j as int),
                acc <= (j as int) * (SAMPLE_BOUND),
            decreases window - j,
        {
            acc = acc + samples[i + j];
            j = j + 1;
        }
        out.push(Ratio::new(acc, window as u128));
        i = i + 1;
    }
    out
}

/// The exact arithmetic mean of all samples, `None` exactly on the empty
/// sequence. It is the horizontal reference line beside each smoothed
/// series.
pub fn series_mean(samples: &Vec<u128>) -> (r: Option<Ratio>)
    requires
        forall|i: int| 0 <= i < samples@.len() ==> #[trigger] samples@[i] <= SAMPLE_BOUND,
        samples@.len() <= crate::config::MAX_CHUNK_COUNT,
    ensures
        r is Some <==> samples@.len() > 0,
        r is Some ==> {
            &&& r->Some_0.wf()
            &&& r->Some_0.den == samples@.len()
            &&& r->Some_0.num == window_sum(samples@, 0, samples@.len() as int)
        },
{
    let n = samples.len();
    if n == 0 {
        return None;
    }
    let mut acc: u128 = 0;
    let mut j: usize = 0;
    while j < n
        invariant
            n == samples@.len(),
            forall|k: int| 0 <= k < samples@.len() ==> #[trigger] samples@[k] <= SAMPLE_BOUND,
            n <= crate::config::MAX_CHUNK_COUNT,
            0 <= j <= n,
            acc == window_sum(samples@, 0, j as int),
            acc <= (j as int) * (SAMPLE_BOUND),
        decreases n - j,
    {
        acc = acc + samples[j];
        j = j + 1;
    }
    Some(Ratio::new(acc, n as u128))
}

/// Extracts the duration samples of the records, in arrival order.
pub fn collect_duration_samples(records: &Vec<ChunkRecord>) -> (r: Vec<u128>)
    ensures
        r@ == duration_samples(records@),
{
    let mut out: Vec<u128> = Vec::new();
    let mut i: usize = 0;
    while i < records.len()
        invariant
            0 <= i <= records@.len(),
            out@ == duration_samples(records@).take(i as int),
        decreases records@.len() - i,
    {
        out.push(records[i].duration_nanos as u128);
        proof {
            assert(out@ =~= duration_samples(records@).take(i as int + 1));
        }
        i = i + 1;
    }
    proof {
        assert(duration_samples(records@).take(records@.len() as int) =~= duration_samples(
            records@,
        ));
    }
    out
}

/// Extracts the rate samples of the records, in arrival order.
pub fn collect_rate_samples(records: &Vec<ChunkRecord>) -> (r: Vec<u128>)
    ensures
        r@ == rate_samples(records@),
{
    let mut out: Vec<u128> = Vec::new();
    let mut i: usize = 0;
    while i < records.len()
        invariant
            0 <= i <= records@.len(),
            out@ == rate_samples(records@).take(i as int),
        decreases records@.len() - i,
    {
        out.push(records[i].effective_rate_bps);
        proof {
            assert(out@ =~= rate_samples(records@).take(i as int + 1));
        }
        i = i + 1;
    }
    proof {
        assert(rate_samples(records@).take(records@.len() as int) =~= rate_samples(records@));
    }
    out
}

/// Smooths both presentation series of a session with the configured
/// window: both obey the length law `max(0, n - window + 1)`, and every
/// element is the exact mean of its window of raw samples.
pub fn smoothed_series(records: &Vec<ChunkRecord>, config: &SessionConfig) -> (r: SmoothedSeries)
    requires
        config.wf(),
        forall|i: int| 0 <= i < records@.len()
            ==> (#[trigger] records@[i]).wf(config.chunk_size_bytes as int),
    ensures
        records@.len() >= config.smoothing_window ==> {
            &&& r.latencies@.len() == records@.len() - config.smoothing_window + 1
            &&& r.rates@.len() == records@.len() - config.smoothing_window + 1
        },
        records@.len() < config.smoothing_window ==> {
            &&& r.latencies@.len() == 0
            &&& r.rates@.len() == 0
        },
        forall|i: int| 0 <= i < r.latencies@.len() ==> {
            &&& (#[trigger] r.latencies@[i]).wf()
            &&& r.latencies@[i].den == config.smoothing_window
            &&& r.latencies@[i].num == window_sum(
                duration_samples(records@),
                i,
                config.smoothing_window as int,
            )
        },
        forall|i: int| 0 <= i < r.rates@.len() ==> {
            &&& (#[trigger] r.rates@[i]).wf()
            &&& r.rates@[i].den == config.smoothing_window
            &&& r.rates@[i].num == window_sum(
                rate_samples(records@),
                i,
                config.smoothing_window as int,
            )
        },
{
    let durations = collect_duration_samples(records);
    let rates = collect_rate_samples(records);
    proof {
        assert forall|i: int| 0 <= i < durations@.len() implies #[trigger] durations@[i]
            <= SAMPLE_BOUND by {
            assert(durations@[i] == records@[i].duration_nanos as u128);
        }
        assert forall|i: int| 0 <= i < rates@.len() implies #[trigger] rates@[i]
            <= SAMPLE_BOUND by {
            assert(rates@[i] == records@[i].effective_rate_bps);
            assert(records@[i].wf(config.chunk_size_bytes as int));
            lemma_rate_bound(config.chunk_size_bytes as int, records@[i].duration_nanos as int);
        }
    }
    let smoothed_latencies = sliding_means(&durations, config.smoothing_window);
    let smoothed_rates = sliding_means(&rates, config.smoothing_window);
    SmoothedSeries { latencies: smoothed_latencies, rates: smoothed_rates }
}

/// The whole aggregation step: one pure function from the ordered record
/// sequence and the session's assumed constants to the summary and the
/// smoothed presentation series. Fails exactly when the summary would
/// divide by zero, that is on an empty record sequence.
pub fn aggregate(records: &Vec<ChunkRecord>, config: &SessionConfig) -> (r: Result<
    (SessionSummary, SmoothedSeries),
    MetricsError,
>)
    requires
        config.wf(),
        records@.len() <= config.chunk_count,
        forall|i: int| 0 <= i < records@.len()
            ==> (#[trigger] records@[i]).wf(config.chunk_size_bytes as int),
    ensures
        match r {
            Ok(p) => {
                &&& records@.len() > 0
                &&& summary_obeys(records@, *config, p.0)
                &&& (records@.len() >= config.smoothing_window ==> p.1.latencies@.len()
                    == records@.len() - config.smoothing_window + 1)
                &&& (records@.len() < config.smoothing_window ==> p.1.latencies@.len() == 0)
                &&& p.1.rates@.len() == p.1.latencies@.len()
                &&& forall|i: int| 0 <= i < p.1.latencies@.len()
                    ==> (#[trigger] p.1.latencies@[i]).den == config.smoothing_window
                        && p.1.latencies@[i].num == window_sum(
                        duration_samples(records@),
                        i,
                        config.smoothing_window as int,
                    )
                &&& forall|i: int| 0 <= i < p.1.rates@.len()
                    ==> (#[trigger] p.1.rates@[i]).den == config.smoothing_window
                        && p.1.rates@[i].num == window_sum(
                        rate_samples(records@),
                        i,
                        config.smoothing_window as int,
                    )
            },
            Err(e) => records@.len() == 0 && e == MetricsError::DivideByZero,
        },
{
    let summary = summarize(records, config)?;
    let smoothed = smoothed_series(records, config);
    Ok((summary, smoothed))
}

/// A well-formed record's rate is bounded by the chunk's bits times ten to
/// the ninth, far below the sample bound of the smoothing arithmetic.
pub proof fn lemma_rate_bound(chunk_size_bytes: int, duration_nanos: int)
    requires
        1 <= chunk_size_bytes <= crate::config::MAX_CHUNK_SIZE_BYTES,
        duration_nanos >= 1,
    ensures
        0 <= crate::record::rate_bps_of(chunk_size_bytes, duration_nanos) <= SAMPLE_BOUND,
{
    let bits_ns = chunk_size_bytes * 8 * 1_000_000_000;
    assert(bits_ns <= 34_359_738_368_000_000_000int);
    vstd::arithmetic::div_mod::lemma_div_basics(bits_ns);
    vstd::arithmetic::div_mod::lemma_div_is_ordered_by_denominator(bits_ns, 1, duration_nanos);
    vstd::arithmetic::div_mod::lemma_div_pos_is_pos(bits_ns, duration_nanos);
}

} // verus!
