use chunkmeter::config::SessionConfig;
use chunkmeter::metrics::{
    calculate_bdp, calculate_effective_data_rate, calculate_tcp_throughput, series_mean,
    sliding_means, summarize, MetricsError,
};
use chunkmeter::ratio::Ratio;
use chunkmeter::receiver::ReceiverSession;
use chunkmeter::record::ChunkRecord;
use chunkmeter::sender::{make_chunk, SenderSession};

fn run_session(config: SessionConfig, durations_nanos: &[u64]) -> ReceiverSession {
    let mut session = ReceiverSession::new(config);
    for &d in durations_nanos {
        session.record_chunk(d);
    }
    session
}

#[test]
fn scenario_full_session() {
    // 100 chunks of 1 MB, each taking exactly 0.1 s.
    let config = SessionConfig::reference();
    let session = run_session(config, &[100_000_000u64; 100]);
    assert!(session.is_complete());
    let summary = summarize(&session.records, &config).unwrap();
    assert_eq!(summary.records_collected, 100);
    assert_eq!(summary.total_bytes, 100_000_000);
    assert_eq!(summary.total_time_nanos, 10_000_000_000);
    // total_bytes * 8 / total_time_seconds = 800_000_000 / 10 = 80_000_000 bps.
    let avg = summary.avg_effective_rate_bps;
    assert_eq!(avg.num, 80_000_000 * avg.den);
    // bdp = avg * rtt_seconds = 80_000_000 * 0.2 = 16_000_000 bits.
    let bdp = summary.bdp_bits;
    assert_eq!(bdp.num, 16_000_000 * bdp.den);
    // tcp throughput = 64_000 * 8 / 0.2 = 2_560_000 bps.
    let tcp = summary.tcp_throughput_bps;
    assert_eq!(tcp.num, 2_560_000 * tcp.den);
}

#[test]
fn scenario_abort_after_37() {
    // The receiver fails after 37 chunks: the summary reflects exactly 37
    // records and no 38th record exists.
    let config = SessionConfig::reference();
    let session = run_session(config, &[50_000_000u64; 37]);
    assert!(!session.is_complete());
    assert_eq!(session.records.len(), 37);
    assert!(session.records.get(37).is_none());
    assert_eq!(session.records.last().unwrap().index, 37);
    let summary = summarize(&session.records, &config).unwrap();
    assert_eq!(summary.records_collected, 37);
    assert_eq!(summary.total_bytes, 37 * 1_000_000);
}

#[test]
fn scenario_degenerate_smoothing() {
    // Three records with a window of five: both smoothed series are empty,
    // yet the summary is still derived from the three raw records.
    let config = SessionConfig::new(1_000_000, 3, 200_000_000, 64_000, 5).unwrap();
    let session = run_session(config, &[100_000_000, 200_000_000, 300_000_000]);
    let smoothed = chunkmeter::metrics::smoothed_series(&session.records, &config);
    assert_eq!(smoothed.latencies.len(), 0);
    assert_eq!(smoothed.rates.len(), 0);
    let summary = summarize(&session.records, &config).unwrap();
    assert_eq!(summary.records_collected, 3);
    assert_eq!(summary.total_time_nanos, 600_000_000);
}

#[test]
fn indices_are_gapless_and_ascending() {
    let config = SessionConfig::reference();
    let session = run_session(config, &[70_000_000, 90_000_000, 110_000_000, 80_000_000]);
    for (i, rec) in session.records.iter().enumerate() {
        assert_eq!(rec.index, i as u64 + 1);
    }
}

#[test]
fn total_time_is_sum_of_durations() {
    let config = SessionConfig::reference();
    let durations = [123_456_789u64, 1, 999_999_999, 5_000_000_000];
    let session = run_session(config, &durations);
    let summary = summarize(&session.records, &config).unwrap();
    let expected: u128 = durations.iter().map(|&d| d as u128).sum();
    assert_eq!(summary.total_time_nanos, expected);
}

#[test]
fn total_bytes_counts_collected_records_only() {
    let config = SessionConfig::reference();
    let session = run_session(config, &[40_000_000u64; 5]);
    let summary = summarize(&session.records, &config).unwrap();
    assert_eq!(summary.total_bytes, 5 * 1_000_000);
}

#[test]
fn average_rate_is_exact() {
    // Two 1 MB chunks in 0.1 s and 0.3 s: 16_000_000 bits in 0.4 s,
    // an average of exactly 40_000_000 bps.
    let config = SessionConfig::reference();
    let session = run_session(config, &[100_000_000, 300_000_000]);
    let summary = summarize(&session.records, &config).unwrap();
    let avg = summary.avg_effective_rate_bps;
    assert_eq!(avg.num, 16_000_000u128 * 1_000_000_000);
    assert_eq!(avg.den, 400_000_000);
    assert_eq!(avg.num, 40_000_000 * avg.den);
}

#[test]
fn derived_figures_are_pure_functions() {
    let rate = calculate_effective_data_rate(16, 2);
    assert_eq!(rate.num, 16_000_000_000);
    assert_eq!(rate.den, 2);

    let bdp = calculate_bdp(Ratio::new(5, 2), 200_000_000);
    assert_eq!(bdp.num, 5 * 200_000_000);
    assert_eq!(bdp.den, 2_000_000_000);

    let tcp = calculate_tcp_throughput(64_000, 200_000_000);
    assert_eq!(tcp.num, 64_000 * 8 * 1_000_000_000);
    assert_eq!(tcp.den, 200_000_000);
}

#[test]
fn empty_session_fails_with_divide_by_zero() {
    let config = SessionConfig::reference();
    let records: Vec<ChunkRecord> = Vec::new();
    assert_eq!(summarize(&records, &config), Err(MetricsError::DivideByZero));
}

#[test]
fn sliding_means_length_and_values() {
    let samples: Vec<u128> = vec![1, 2, 3, 4, 5, 6];
    let means = sliding_means(&samples, 5);
    assert_eq!(means.len(), 2);
    assert_eq!(means[0], Ratio::new(15, 5));
    assert_eq!(means[1], Ratio::new(20, 5));

    let short: Vec<u128> = vec![1, 2, 3];
    assert_eq!(sliding_means(&short, 5).len(), 0);

    let exact: Vec<u128> = vec![10, 20, 30, 40, 50];
    let one = sliding_means(&exact, 5);
    assert_eq!(one.len(), 1);
    assert_eq!(one[0], Ratio::new(150, 5));
}

#[test]
fn series_mean_of_samples() {
    let samples: Vec<u128> = vec![2, 4, 6];
    assert_eq!(series_mean(&samples), Some(Ratio::new(12, 3)));
    let empty: Vec<u128> = Vec::new();
    assert_eq!(series_mean(&empty), None);
}

#[test]
fn chunk_record_rate_formula() {
    // 1 MB in 0.1 s: 8_000_000 bits / 0.1 s = 80_000_000 bps.
    let rec = ChunkRecord::new(1_000_000, 1, 100_000_000);
    assert_eq!(rec.effective_rate_bps, 80_000_000);
    // Rounding: 8 bits in 3 ns is 8e9 / 3 bps, rounded down.
    let tiny = ChunkRecord::new(1, 1, 3);
    assert_eq!(tiny.effective_rate_bps, 2_666_666_666);
}

#[test]
fn sender_runs_its_schedule_once() {
    let config = SessionConfig::new(1_000_000, 2, 200_000_000, 64_000, 5).unwrap();
    let mut sender = SenderSession::new(config);
    assert!(!sender.is_complete());
    sender.mark_chunk_sent();
    assert!(!sender.is_complete());
    sender.mark_chunk_sent();
    assert!(sender.is_complete());
    assert_eq!(sender.chunks_sent, 2);
}

#[test]
fn chunk_payload_is_zeroed_and_sized() {
    let chunk = make_chunk(1000);
    assert_eq!(chunk.len(), 1000);
    assert!(chunk.iter().all(|&b| b == 0));
    assert_eq!(make_chunk(0).len(), 0);
}

#[test]
fn config_rejects_out_of_range_parameters() {
    assert!(SessionConfig::new(0, 100, 200_000_000, 64_000, 5).is_none());
    assert!(SessionConfig::new(1_000_000, 0, 200_000_000, 64_000, 5).is_none());
    assert!(SessionConfig::new(1_000_000, 100, 0, 64_000, 5).is_none());
    assert!(SessionConfig::new(1_000_000, 100, 200_000_000, 64_000, 0).is_none());
    assert!(SessionConfig::new(1_000_000, 1_048_577, 200_000_000, 64_000, 5).is_none());
    let ok = SessionConfig::new(1_000_000, 100, 200_000_000, 64_000, 5).unwrap();
    assert_eq!(ok, SessionConfig::reference());
}

#[test]
fn smoothed_series_matches_brute_force() {
    let config = SessionConfig::reference();
    let durations = [
        100_000_000u64,
        110_000_000,
        90_000_000,
        120_000_000,
        80_000_000,
        100_000_000,
        105_000_000,
    ];
    let session = run_session(config, &durations);
    let smoothed = chunkmeter::metrics::smoothed_series(&session.records, &config);
    assert_eq!(smoothed.latencies.len(), 3);
    assert_eq!(smoothed.rates.len(), 3);
    for i in 0..smoothed.latencies.len() {
        let window_sum: u128 = durations[i..i + 5].iter().map(|&d| d as u128).sum();
        assert_eq!(smoothed.latencies[i], Ratio::new(window_sum, 5));
        let rate_sum: u128 = session.records[i..i + 5]
            .iter()
            .map(|r| r.effective_rate_bps)
            .sum();
        assert_eq!(smoothed.rates[i], Ratio::new(rate_sum, 5));
    }
}

#[test]
fn aggregate_combines_summary_and_smoothing() {
    let config = SessionConfig::reference();
    let session = run_session(config, &[100_000_000u64; 6]);
    let (summary, smoothed) =
        chunkmeter::metrics::aggregate(&session.records, &config).unwrap();
    assert_eq!(summary.records_collected, 6);
    assert_eq!(smoothed.latencies.len(), 2);
    assert_eq!(smoothed.rates.len(), 2);
    assert_eq!(smoothed.latencies[0], Ratio::new(500_000_000, 5));
    let empty: Vec<ChunkRecord> = Vec::new();
    assert!(chunkmeter::metrics::aggregate(&empty, &config).is_err());
}
