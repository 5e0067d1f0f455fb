use diskio::error::DiskioError;
use diskio::human::humanize;
use diskio::plot::{data_file_name, plot_file_name, top_sample};
use diskio::stats::Stats;
use diskio::sweep::{gather, sweep_points, Failure, Outcome};
use diskio::worker::{worker_quota, Context, FILL};

fn stats_with(latencies: &[u64], windows: &[u64]) -> Stats {
    // latencies carry no bytes; window w closes after w one-byte operations
    let mut s = Stats::new();
    for l in latencies {
        s.record(0, *l, 0);
    }
    for w in windows {
        for _ in 0..*w {
            s.record(0, 0, 1);
        }
        s.record(1_000_000, 0, 0);
    }
    s
}

#[test]
fn humanize_picks_the_largest_unit() {
    assert_eq!(humanize(0), "0B");
    assert_eq!(humanize(1023), "1023B");
    assert_eq!(humanize(1024), "1KB");
    assert_eq!(humanize(4096), "4KB");
    assert_eq!(humanize(1536 * 1024), "1MB");
    assert_eq!(humanize(3 * 1024 * 1024 * 1024), "3GB");
    assert_eq!(humanize(1024u64.pow(4)), "1TB");
    assert_eq!(humanize(u64::MAX), "16777215TB");
}

#[test]
fn file_names() {
    assert_eq!(data_file_name(3), "diskio-3.data");
    assert_eq!(plot_file_name("latency", 2, 1024, 4096), "diskio-plot-latency-2x1KBx4KB.png");
}

#[test]
fn top_sample_is_the_maximum() {
    assert_eq!(top_sample(&vec![]), 0);
    assert_eq!(top_sample(&vec![3, 9, 2]), 9);
}

#[test]
fn record_counts_bytes_until_a_window_closes() {
    let mut s = Stats::new();
    assert!(!s.record(10, 5, 100));
    assert!(!s.record(999_999, 6, 50));
    assert!(s.throughputs.is_empty());
    assert!(s.record(1_000_000, 7, 30));
    assert_eq!(s.throughputs, vec![150]);
    assert!(!s.record(0, 8, 10));
    assert!(s.record(2_500_000, 9, 0));
    assert_eq!(s.throughputs, vec![150, 80]);
    assert_eq!(s.sync_latencies, vec![5, 6, 7, 8, 9]);
}

#[test]
fn closing_sample_averages_rounding_down() {
    let mut s = Stats::new();
    s.record(0, 0, u64::MAX);
    s.record(1_000_000, 0, 0);
    s.record(0, 0, u64::MAX);
    s.record(1_000_000, 0, 0);
    s.record(0, 0, 2);
    s.record(1_000_000, 0, 0);
    assert_eq!(s.throughputs, vec![u64::MAX, u64::MAX, u64::MAX / 2 + 1]);
}

#[test]
fn click_records_a_latency() {
    let mut s = Stats::new();
    s.click(std::time::SystemTime::now(), 10).unwrap();
    assert_eq!(s.sync_latencies.len(), 1);
}

#[test]
fn join_concatenates_latencies_and_adds_throughputs() {
    let mut a = stats_with(&[1, 2], &[1, 2]);
    let b = stats_with(&[3, 4, 5], &[10, 20, 30]);
    assert_eq!(a.throughputs, vec![1, 1]);
    assert_eq!(b.throughputs, vec![10, 15, 22]);
    assert!(a.can_join(&b));
    a.join(b);
    assert_eq!(a.sync_latencies.len(), 7 + 66);
    assert_eq!(a.throughputs, vec![11, 16, 22]);
}

#[test]
fn join_keeps_the_longer_receiver() {
    let mut a = stats_with(&[], &[4, 4, 4]);
    let b = stats_with(&[7], &[2]);
    a.join(b);
    assert_eq!(a.throughputs, vec![6, 4, 4]);
}

#[test]
fn can_join_sees_overflow() {
    let mut a = Stats::new();
    a.record(0, 0, u64::MAX);
    a.record(1_000_000, 0, 0);
    let mut b = Stats::new();
    b.record(0, 0, 1);
    b.record(1_000_000, 0, 0);
    assert!(!a.can_join(&b));
    assert!(a.can_join(&Stats::new()));
}

#[test]
fn quota_drops_the_remainder() {
    assert_eq!(worker_quota(1000, 3), 333);
    assert!(3 * worker_quota(1000, 3) <= 1000);
    assert_eq!(3 * worker_quota(1000, 3), 999);
    assert_eq!(4 * worker_quota(4096, 4), 4096);
    assert_eq!(worker_quota(0, 5), 0);
}

#[test]
fn writer_of_4k_in_1k_blocks_makes_four_operations() {
    let quota = worker_quota(4096, 1);
    let mut c = Context::new(1024, quota);
    assert_eq!(c.block().len(), 1024);
    assert!(c.block().iter().all(|b| *b == FILL));
    let mut ops = 0;
    while c.has_quota() {
        c.check_write(Ok(1024)).unwrap();
        c.record_op(0, 1);
        ops += 1;
    }
    assert_eq!(ops, 4);
    let s = c.into_stats();
    assert_eq!(s.sync_latencies.len(), 4);
    assert_eq!(humanize(ops * 1024), "4KB");
}

#[test]
fn last_block_may_overshoot_the_quota() {
    let mut c = Context::new(1000, 2500);
    let mut ops = 0;
    while c.has_quota() {
        c.record_op(0, 0);
        ops += 1;
    }
    assert_eq!(ops, 3);
}

#[test]
fn writer_with_no_quota_writes_nothing() {
    let c = Context::new(512, 0);
    assert!(!c.has_quota());
}

#[test]
fn complete_records_through_the_clock() {
    let mut c = Context::new(16, 16);
    c.complete(std::time::SystemTime::now()).unwrap();
    assert!(!c.has_quota());
    assert_eq!(c.into_stats().sync_latencies.len(), 1);
}

#[test]
fn short_write_is_a_partial_write_error() {
    let c = Context::new(1024, 4096);
    let e = c.check_write(Ok(512)).unwrap_err();
    assert_eq!(e.0, "partial write 512");
}

#[test]
fn failed_write_is_a_write_error() {
    let c = Context::new(1024, 4096);
    let e = c.check_write(Err("disk full".to_string())).unwrap_err();
    assert_eq!(e.0, "invalid write disk full");
}

#[test]
fn sweep_runs_block_sizes_within_data_sizes() {
    let p = sweep_points(&vec![10, 20], &vec![1, 2, 3]);
    assert_eq!(p, vec![(10, 1), (10, 2), (10, 3), (20, 1), (20, 2), (20, 3)]);
}

#[test]
fn empty_axis_gives_no_sweep_points() {
    assert!(sweep_points(&vec![], &vec![1, 2]).is_empty());
    assert!(sweep_points(&vec![1, 2], &vec![]).is_empty());
}

#[test]
fn failed_sync_leaves_a_writer_out_of_the_merge() {
    let outcomes = vec![
        Outcome::Done(stats_with(&[1, 2], &[5])),
        Outcome::Failed(DiskioError("sync failed: device gone".to_string())),
        Outcome::Done(stats_with(&[3], &[7, 1])),
        Outcome::Aborted,
    ];
    let (s, failures) = gather(outcomes);
    assert_eq!(s.throughputs, vec![12, 4]);
    assert_eq!(s.sync_latencies.len(), (2 + 5 + 1) + (1 + 7 + 1 + 1 + 1));
    assert_eq!(failures.len(), 2);
    match &failures[0] {
        Failure::Errored(1, e) => assert_eq!(e.0, "sync failed: device gone"),
        other => panic!("unexpected {:?}", other),
    }
    assert!(matches!(failures[1], Failure::Aborted(3)));
}

#[test]
fn gather_of_nothing_is_empty() {
    let (s, failures) = gather(vec![]);
    assert!(s.sync_latencies.is_empty());
    assert!(s.throughputs.is_empty());
    assert!(failures.is_empty());
}

#[test]
fn gather_reports_samples_that_would_overflow() {
    let mut big = Stats::new();
    big.record(0, 0, u64::MAX);
    big.record(1_000_000, 0, 0);
    let (s, failures) = gather(vec![Outcome::Done(big), Outcome::Done(stats_with(&[], &[1]))]);
    assert_eq!(s.throughputs, vec![u64::MAX]);
    assert!(matches!(failures[0], Failure::Errored(1, _)));
}

#[test]
fn record_reading_refuses_an_oversized_latency() {
    let mut s = Stats::new();
    s.record_reading(0, 5, 10).unwrap();
    assert!(s.record_reading(0, u64::MAX as u128 + 1, 10).is_err());
    assert_eq!(s.sync_latencies, vec![5]);
    assert!(s.throughputs.is_empty());
}

#[test]
fn record_reading_caps_the_window() {
    let mut s = Stats::new();
    assert_eq!(s.record_reading(0, 3, 40).unwrap(), false);
    assert_eq!(s.record_reading(u128::MAX, u64::MAX as u128, 0).unwrap(), true);
    assert_eq!(s.throughputs, vec![40]);
    assert_eq!(s.sync_latencies, vec![3, u64::MAX]);
}
