use warmer::stats::{saturated_millis, Ratio, Stats};

fn recorded(samples: &[(u64, u64, u16)]) -> Stats {
    let mut stats = Stats::new();
    for (time, size, code) in samples {
        stats.add_transaction(*time, *size, *code);
    }
    stats
}

#[test]
fn availability_is_zero_without_transactions() {
    let stats = Stats::new();
    assert_eq!(stats.availability(), Ratio { num: 0, den: 1 });
    assert!(stats.avg_response_time().is_zero());
    assert!(stats.transaction_rate().is_zero());
    assert!(stats.throughput().is_zero());
    assert!(stats.concurrency().is_zero());
    assert_eq!(stats.transaction_rate_over(0), Ratio { num: 0, den: 1 });
    assert_eq!(stats.throughput_over(0), Ratio { num: 0, den: 1 });
    assert_eq!(stats.concurrency_over(0), Ratio { num: 0, den: 1 });
    assert_eq!(stats.longest_transaction(), None);
    assert_eq!(stats.shortest_transaction(), None);
}

#[test]
fn every_record_is_counted_once() {
    let stats = recorded(&[(10, 100, 200), (20, 0, 0), (30, 50, 404), (40, 10, 301), (50, 0, 500)]);
    assert_eq!(stats.transactions(), 5);
    assert_eq!(stats.successful_transactions(), 2);
    assert_eq!(stats.failed_transactions(), 3);
    assert_eq!(
        stats.successful_transactions() + stats.failed_transactions(),
        stats.transactions()
    );
    assert_eq!(stats.data_transferred(), 160);
    assert_eq!(stats.response_times(), &vec![10, 20, 30, 40, 50]);
}

#[test]
fn transport_failure_counts_as_failed_transaction() {
    let stats = recorded(&[(7, 0, 0)]);
    assert_eq!(stats.transactions(), 1);
    assert_eq!(stats.successful_transactions(), 0);
    assert_eq!(stats.failed_transactions(), 1);
    assert_eq!(stats.availability(), Ratio { num: 0, den: 1 });
}

#[test]
fn status_boundaries_of_success() {
    let stats = recorded(&[(1, 0, 1), (1, 0, 399), (1, 0, 400), (1, 0, 65535)]);
    assert_eq!(stats.successful_transactions(), 2);
    assert_eq!(stats.failed_transactions(), 2);
}

#[test]
fn interleaved_workers_lose_no_update() {
    let workers: Vec<Vec<(u64, u64, u16)>> = vec![
        vec![(1, 1, 200); 40],
        vec![(2, 2, 500); 25],
        vec![(3, 3, 0); 10],
        vec![(4, 4, 302); 5],
    ];
    let mut stats = Stats::new();
    let mut calls = 0;
    let mut round = 0;
    loop {
        let mut any = false;
        for w in &workers {
            if round < w.len() {
                let (t, s, c) = w[round];
                stats.add_transaction(t, s, c);
                calls += 1;
                any = true;
            }
        }
        if !any {
            break;
        }
        round += 1;
    }
    assert_eq!(calls, 80);
    assert_eq!(stats.transactions(), 80);
    assert_eq!(stats.successful_transactions(), 45);
    assert_eq!(stats.failed_transactions(), 35);
    assert_eq!(stats.response_times().len(), 80);
    assert_eq!(stats.data_transferred(), 40 + 50 + 30 + 20);
}

#[test]
fn availability_is_percentage_of_successes() {
    let stats = recorded(&[(1, 0, 200), (1, 0, 404), (1, 0, 500), (1, 0, 0)]);
    assert_eq!(stats.availability(), Ratio { num: 100, den: 4 });
    assert_eq!(stats.availability().floor(), 25);
}

#[test]
fn average_response_time_is_sum_over_count() {
    let stats = recorded(&[(100, 0, 200), (200, 0, 200), (300, 0, 200)]);
    assert_eq!(stats.avg_response_time(), Ratio { num: 600, den: 3 });
    assert_eq!(stats.avg_response_time().floor(), 200);
}

#[test]
fn rate_throughput_and_concurrency_over_elapsed_time() {
    let mut stats = Stats::new();
    for _ in 0..10 {
        stats.add_transaction(60, 209_715, 200);
    }
    assert_eq!(stats.transaction_rate_over(2000), Ratio { num: 10_000, den: 2000 });
    assert_eq!(stats.transaction_rate_over(2000).floor(), 5);
    assert_eq!(
        stats.throughput_over(1000),
        Ratio { num: 2_097_150 * 1000, den: 1000 * 1_048_576 }
    );
    assert_eq!(stats.throughput_over(1000).floor(), 1);
    assert_eq!(stats.concurrency_over(300), Ratio { num: 600, den: 300 });
    assert_eq!(stats.concurrency_over(300).floor(), 2);
}

#[test]
fn concurrency_equals_mean_time_times_rate_over_thousand() {
    let stats = recorded(&[(120, 0, 200), (80, 0, 200), (100, 0, 500), (100, 0, 200)]);
    let elapsed = 500u64;
    let avg = stats.avg_response_time();
    let rate = stats.transaction_rate_over(elapsed);
    let c = stats.concurrency_over(elapsed);
    let by_formula = (avg.num as f64 / avg.den as f64) * (rate.num as f64 / rate.den as f64) / 1000.0;
    let direct = c.num as f64 / c.den as f64;
    assert!((by_formula - direct).abs() < 1e-9);
    assert_eq!(c, Ratio { num: 400, den: 500 });
}

#[test]
fn finish_stamps_the_elapsed_time() {
    let mut stats = recorded(&[(5, 10, 200)]);
    stats.finish_at(1500);
    assert_eq!(stats.elapsed_time(), 1500);
    assert_eq!(stats.elapsed_at(99_999), 1500);
    assert_eq!(stats.transaction_rate(), Ratio { num: 1000, den: 1500 });
}

#[test]
fn second_finish_overwrites_the_stamp() {
    let mut stats = Stats::new();
    stats.finish_at(100);
    stats.finish_at(250);
    assert_eq!(stats.elapsed_time(), 250);
}

#[test]
fn elapsed_follows_the_clock_until_finished() {
    let stats = Stats::new();
    assert_eq!(stats.elapsed_at(42), 42);
    let mut done = Stats::new();
    done.finish();
    let stamp = done.elapsed_time();
    assert_eq!(done.elapsed_time(), stamp);
    assert_eq!(done.elapsed_at(stamp + 1000), stamp);
}

#[test]
fn longest_and_shortest_transaction() {
    let stats = recorded(&[(30, 0, 200), (10, 0, 200), (90, 0, 200), (40, 0, 200)]);
    assert_eq!(stats.longest_transaction(), Some(90));
    assert_eq!(stats.shortest_transaction(), Some(10));
}

#[test]
fn summary_holds_all_figures() {
    let mut stats = recorded(&[(100, 1_048_576, 200), (300, 1_048_576, 503)]);
    stats.finish_at(2000);
    let s = stats.summary();
    assert_eq!(s.transactions, 2);
    assert_eq!(s.availability, Ratio { num: 100, den: 2 });
    assert_eq!(s.elapsed, 2000);
    assert_eq!(s.data_transferred, 2_097_152);
    assert_eq!(s.avg_response_time, Ratio { num: 400, den: 2 });
    assert_eq!(s.transaction_rate, Ratio { num: 2000, den: 2000 });
    assert_eq!(s.throughput.floor(), 1);
    assert_eq!(s.concurrency, Ratio { num: 400, den: 2000 });
    assert_eq!(s.successful, 1);
    assert_eq!(s.failed, 1);
    assert_eq!(s.longest, Some(300));
    assert_eq!(s.shortest, Some(100));
}

#[test]
fn byte_counter_goes_beyond_64_bits() {
    let mut stats = Stats::new();
    stats.add_transaction(1, u64::MAX, 200);
    stats.add_transaction(1, u64::MAX, 404);
    stats.add_transaction(1, 7, 0);
    assert_eq!(stats.transactions(), 3);
    assert_eq!(stats.data_transferred(), 2 * (u64::MAX as u128) + 7);
    assert_eq!(
        stats.throughput_over(1),
        Ratio { num: (2 * (u64::MAX as u128) + 7) * 1000, den: 1_048_576 }
    );
}

#[test]
fn milliseconds_beyond_64_bits_are_held_at_the_largest() {
    assert_eq!(saturated_millis(0), 0);
    assert_eq!(saturated_millis(1500), 1500);
    assert_eq!(saturated_millis(u64::MAX as u128), u64::MAX);
    assert_eq!(saturated_millis(u64::MAX as u128 + 1), u64::MAX);
    assert_eq!(saturated_millis(u128::MAX), u64::MAX);
}
