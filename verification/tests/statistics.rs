use hft_pipeline::latency::{
    quantile_of, sort_samples, span_ns, LatencyReport, LatencyWindow, OrderLatencies, RateMeter,
    RateReport,
};
use hft_pipeline::market::OrderSignal;
use hft_pipeline::price::Price;

fn order(tick_ns: u64, signal_ns: u64) -> OrderSignal {
    OrderSignal {
        symbol: [0u8; 8],
        side: 0,
        _pad: [0u8; 7],
        quantity: Price { bits: 0 },
        limit_price: Price { bits: 0 },
        signal_ns,
        tick_ns,
        seq: 0,
    }
}

#[test]
fn span_saturates_at_zero() {
    assert_eq!(span_ns(100, 250), 150);
    assert_eq!(span_ns(250, 100), 0);
    assert_eq!(span_ns(0, u64::MAX), u64::MAX);
}

#[test]
fn samples_are_sorted() {
    let mut v = vec![5, 3, 9, 3, 0];
    sort_samples(&mut v);
    assert_eq!(v, vec![0, 3, 3, 5, 9]);
}

#[test]
fn quantiles_of_a_hundred_samples() {
    let v: Vec<u64> = (0..100).collect();
    assert_eq!(quantile_of(&v, 50, 100), 50);
    assert_eq!(quantile_of(&v, 95, 100), 95);
    assert_eq!(quantile_of(&v, 99, 100), 99);
    assert_eq!(quantile_of(&v, 999, 1000), 99);
}

#[test]
fn quantiles_of_few_samples() {
    assert_eq!(quantile_of(&[7], 50, 100), 7);
    assert_eq!(quantile_of(&[7], 999, 1000), 7);
    assert_eq!(quantile_of(&[1, 2], 50, 100), 2);
    assert_eq!(quantile_of(&[1, 2, 3], 50, 100), 2);
    assert_eq!(quantile_of(&[1, 2, 3], 100, 100), 3);
}

#[test]
fn window_reports_after_five_seconds() {
    let mut w = LatencyWindow::new(1_000);
    for i in (1..=1000u64).rev() {
        w.record(i);
    }
    assert_eq!(w.close(5_000_000_999), None);
    assert_eq!(w.samples.len(), 1000);
    assert_eq!(
        w.close(5_000_001_000),
        Some(LatencyReport {
            samples: 1000,
            p50: 501,
            p99: 991,
            p999: 1000,
            max: 1000
        })
    );
    assert!(w.samples.is_empty());
    assert_eq!(w.opened_ns, 5_000_001_000);
}

#[test]
fn empty_window_never_reports() {
    let mut w = LatencyWindow::new(0);
    assert_eq!(w.close(u64::MAX), None);
    assert_eq!(w.opened_ns, 0);
}

#[test]
fn arrival_order_does_not_matter() {
    let mut a = LatencyWindow::new(0);
    let mut b = LatencyWindow::new(0);
    for x in [4, 8, 15, 16, 23, 42] {
        a.record(x);
    }
    for x in [42, 15, 8, 23, 4, 16] {
        b.record(x);
    }
    assert_eq!(a.close(6_000_000_000), b.close(6_000_000_000));
}

#[test]
fn every_sample_is_reported_once() {
    let mut w = LatencyWindow::new(0);
    let mut reported = 0;
    for i in 0..25u64 {
        w.record(i);
        if let Some(r) = w.close(i * 1_000_000_000) {
            reported += r.samples;
        }
    }
    assert_eq!(reported + w.samples.len(), 25);
    assert_eq!(reported, 21);
}

#[test]
fn rate_meter_reports_after_a_second() {
    let mut m = RateMeter::new(10);
    m.bump();
    m.bump();
    assert_eq!(m.close(1_000_000_009), None);
    assert_eq!(
        m.close(1_000_000_010),
        Some(RateReport {
            count: 2,
            elapsed_ns: 1_000_000_000
        })
    );
    assert_eq!(
        m,
        RateMeter {
            count: 0,
            opened_ns: 1_000_000_010
        }
    );
}

#[test]
fn order_latencies_add_up() {
    let l = OrderLatencies::of(&order(1_000, 1_300), 2_000);
    assert_eq!(l.decision_ns, 300);
    assert_eq!(l.submission_ns, 700);
    assert_eq!(l.e2e_ns, 1_000);
}

#[test]
fn order_latencies_saturate() {
    let l = OrderLatencies::of(&order(5_000, 1_300), 2_000);
    assert_eq!(l.decision_ns, 0);
    assert_eq!(l.submission_ns, 700);
    assert_eq!(l.e2e_ns, 0);
}
