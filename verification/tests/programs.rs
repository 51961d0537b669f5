use hft_pipeline::bench::{bench_stats, mean_text, print_stats, BenchStats, PingRun};
use hft_pipeline::feed::{lcg_next, market_key, publish_interval_ns, Feed};
use hft_pipeline::market::{MarketTick, OrderSignal, PayloadSize};
use hft_pipeline::md_handler::Forwarder;
use hft_pipeline::order_gateway::OrderGateway;
use hft_pipeline::price::Price;
use hft_pipeline::strategy::{order_for, Strategy, BUY, SELL};
use hft_pipeline::symbol::symbol_bytes;
use hft_pipeline::text::{push_decimal, push_right_aligned, trim_end_slashes};

const SECOND: u64 = 1_000_000_000;

fn price(x: f64) -> Price {
    Price { bits: x.to_bits() }
}

fn tick(bid: f64, ask: f64) -> MarketTick {
    MarketTick {
        symbol: symbol_bytes("BTCUSD"),
        bid: price(bid),
        ask: price(ask),
        timestamp_ns: 1_000,
        seq: 5,
    }
}

#[test]
fn generator_matches_wrapping_arithmetic() {
    let mut state = 0u64;
    assert_eq!(lcg_next(&mut state), 1_442_695_040_888_963_407);
    assert_eq!(state, 1_442_695_040_888_963_407);
    let mut state = u64::MAX;
    let expected = u64::MAX
        .wrapping_mul(6_364_136_223_846_793_005)
        .wrapping_add(1_442_695_040_888_963_407);
    assert_eq!(lcg_next(&mut state), expected);
}

#[test]
fn feed_draws_from_its_sequence_number() {
    let mut feed = Feed::new("BTCUSD", 0, 0);
    let mut state = 1_234_567_891u64;
    assert_eq!(feed.draw(), lcg_next(&mut state));
    feed.seq = u64::MAX;
    let mut state = 1_234_567_890u64;
    assert_eq!(feed.draw(), lcg_next(&mut state));
}

#[test]
fn feed_publishes_its_count() {
    let mut feed = Feed::new("BTCUSD", 3, 0);
    let mut seqs = vec![];
    loop {
        let t = feed.tick(price(1.0), price(2.0), 9);
        assert_eq!(t.symbol, *b"BTCUSD\0\0");
        assert_eq!(t.timestamp_ns, 9);
        seqs.push(t.seq);
        feed.advance();
        if feed.finished() {
            break;
        }
    }
    assert_eq!(seqs, vec![0, 1, 2]);
}

#[test]
fn feed_without_limit_goes_on() {
    let mut feed = Feed::new("X", 0, 0);
    for _ in 0..100 {
        feed.advance();
        assert!(!feed.finished());
    }
}

#[test]
fn feed_reports_each_second() {
    let mut feed = Feed::new("X", 0, 0);
    feed.advance();
    feed.advance();
    assert_eq!(feed.report(SECOND - 1), None);
    let r = feed.report(SECOND + 5).unwrap();
    assert_eq!(r.published, 2);
    assert_eq!(r.rate.count, 2);
    assert_eq!(r.rate.elapsed_ns, SECOND + 5);
    feed.advance();
    let r = feed.report(3 * SECOND).unwrap();
    assert_eq!(r.published, 3);
    assert_eq!(r.rate.count, 1);
}

#[test]
fn feed_key_and_interval() {
    assert_eq!(market_key("BTCUSD"), "market/tick/BTCUSD");
    assert_eq!(publish_interval_ns(10_000), 100_000);
    assert_eq!(publish_interval_ns(3), 333_333_333);
    assert_eq!(publish_interval_ns(u64::MAX), 0);
}

#[test]
fn handler_forwards_ticks_and_refuses_others() {
    let mut f = Forwarder::new(0);
    let t = tick(1.0, 2.0);
    assert_eq!(f.on_payload(&t.to_bytes()), Ok(t));
    assert_eq!(f.on_payload(&[0u8; 41]), Err(PayloadSize { len: 41 }));
    assert_eq!(f.meter.count, 1);
    assert_eq!(f.report(SECOND - 1), None);
    let r = f.report(2 * SECOND).unwrap();
    assert_eq!(r.count, 1);
    assert_eq!(r.elapsed_ns, 2 * SECOND);
    assert_eq!(f.meter.count, 0);
}

#[test]
fn strategy_emits_on_change_of_side_only() {
    let mut s = Strategy::new(price(0.01), 0);
    // the first tick is its own average
    assert_eq!(s.on_mid(price(100.0), price(0.0)), Some(BUY));
    assert_eq!(s.signal.ema, Some(price(100.0)));
    assert_eq!(s.on_mid(price(101.0), price(100.1)), None);
    // at the average still a buy
    assert_eq!(s.on_mid(price(100.1), price(100.1)), None);
    assert_eq!(s.on_mid(price(99.0), price(99.9)), Some(SELL));
    assert_eq!(s.on_mid(price(98.0), price(99.8)), None);
    assert_eq!(s.on_mid(price(102.0), price(99.9)), Some(BUY));
    assert_eq!(s.signal.seq, 3);
    assert_eq!(s.signal.ema, Some(price(99.9)));
}

#[test]
fn strategy_without_order_keeps_its_count() {
    let mut s = Strategy::new(price(0.01), 0);
    s.on_mid(price(1.0), price(1.0));
    s.signal.seq = u64::MAX;
    assert_eq!(s.on_mid(price(3.0), price(2.0)), None);
    assert_eq!(s.signal.seq, u64::MAX);
}

#[test]
fn emitted_order_has_the_decided_side() {
    let mut s = Strategy::new(price(0.01), 0);
    for (mid, blended) in [(10.0, 10.0), (9.0, 9.5), (8.0, 9.0), (11.0, 9.2)] {
        let (mid, blended) = (price(mid), price(blended));
        let before = s.signal;
        let decided = s.signal.decide(mid, blended);
        assert_eq!(s.signal, before);
        assert_eq!(s.on_mid(mid, blended), decided);
        match decided {
            Some(side) => {
                let o = s.emit(&tick(9.0, 11.0), side, 1_800, 1_900);
                assert_eq!(o.side, side);
                assert_eq!(o.seq, before.seq + 1);
                assert_ne!(before.prev_side, Some(side));
                assert_eq!(s.signal.prev_side, Some(side));
            }
            None => {
                assert_eq!(s.signal.seq, before.seq);
                assert_eq!(s.signal.prev_side, before.prev_side);
            }
        }
    }
    assert_eq!(s.signal.seq, 3);
}

#[test]
fn strategy_sells_on_nan() {
    let mut s = Strategy::new(price(0.01), 0);
    assert_eq!(s.on_mid(price(f64::NAN), price(0.0)), Some(SELL));
}

#[test]
fn strategy_orders_alternate() {
    let mut s = Strategy::new(price(0.01), 0);
    let mut sides = vec![];
    let mut state = 12_345u64;
    let mut ema = None;
    for _ in 0..500 {
        let mid = (lcg_next(&mut state) >> 40) as f64;
        let blended = match ema {
            Some(e) => 0.1 * mid + 0.9 * e,
            None => mid,
        };
        ema = Some(blended);
        if let Some(side) = s.on_mid(price(mid), price(blended)) {
            assert_eq!(side, if mid >= blended { BUY } else { SELL });
            sides.push(side);
        }
    }
    assert!(sides.len() > 10);
    for pair in sides.windows(2) {
        assert_ne!(pair[0], pair[1]);
    }
    assert_eq!(s.signal.seq, sides.len() as u64);
}

#[test]
fn orders_cross_the_spread() {
    let t = tick(29_990.0, 30_010.0);
    let buy = order_for(&t, BUY, price(0.01), 1_500, 1);
    assert_eq!(buy.limit_price, price(30_010.0));
    let sell = order_for(&t, SELL, price(0.01), 1_500, 2);
    assert_eq!(
        sell,
        OrderSignal {
            symbol: symbol_bytes("BTCUSD"),
            side: 1,
            _pad: [0u8; 7],
            quantity: price(0.01),
            limit_price: price(29_990.0),
            signal_ns: 1_500,
            tick_ns: 1_000,
            seq: 2,
        }
    );
}

#[test]
fn strategy_measures_tick_to_signal() {
    let mut s = Strategy::new(price(0.5), 0);
    let side = s.on_mid(price(10.0), price(10.0)).unwrap();
    let o = s.emit(&tick(9.0, 11.0), side, 1_800, 1_900);
    assert_eq!(o.seq, 1);
    assert_eq!(o.quantity, price(0.5));
    assert_eq!(o.limit_price, price(11.0));
    assert_eq!(o.signal_ns, 1_900);
    assert_eq!(o.tick_ns, 1_000);
    assert_eq!(s.window.samples, vec![800]);
    assert_eq!(s.report(5 * SECOND - 1), None);
    let r = s.report(5 * SECOND).unwrap();
    assert_eq!(r.signals, 1);
    assert_eq!(r.latency.samples, 1);
    assert_eq!(r.latency.p50, 800);
    assert_eq!(r.latency.max, 800);
}

#[test]
fn gateway_routes_orders_unchanged() {
    let mut g = OrderGateway::new(0);
    let o = order_for(&tick(1.0, 2.0), BUY, price(0.01), 1_500, 1);
    let routed = g.route(&o, 1_600);
    assert_eq!(OrderSignal::from_bytes(&routed.payload), Ok(o));
    assert_eq!(routed.e2e_ns, 600);
    // a clock that runs behind
    assert_eq!(g.route(&o, 10).e2e_ns, 0);
    assert_eq!(g.routed, 2);
    assert_eq!(g.report(5 * SECOND - 1), None);
    let r = g.report(5 * SECOND).unwrap();
    assert_eq!(r.routed, 2);
    assert_eq!(r.latency.samples, 2);
    assert_eq!(r.latency.p50, 600);
    assert_eq!(g.report(50 * SECOND), None);
}

#[test]
fn ping_run_measures_after_warmup() {
    let mut run = PingRun::new(3, 2);
    assert_eq!(run.total(), 5);
    let mut now = 1_000u64;
    while run.is_running() {
        let ping = run.ping(now);
        assert_eq!(ping.bid, price(30_000.0));
        assert_eq!(ping.ask, price(30_001.0));
        assert_eq!(ping.symbol, [0u8; 8]);
        assert_eq!(ping.seq, run.completed);
        // a stale echo is ignored
        let mut stale = ping;
        stale.seq = ping.seq.wrapping_sub(1);
        let before = run.completed;
        assert!(!run.on_pong(&stale, now + 50));
        assert_eq!(run.completed, before);
        now += 101 + 10 * ping.seq;
        assert!(run.on_pong(&ping, now));
    }
    assert_eq!(run.completed, 5);
    assert_eq!(run.latencies, vec![60, 65, 70]);
}

#[test]
fn ping_run_of_nothing_is_over() {
    let run = PingRun::new(0, 0);
    assert!(!run.is_running());
    assert_eq!(run.progress(), Some(0));
}

#[test]
fn ping_progress_every_hundred_thousand() {
    let mut run = PingRun::new(0, 200_000);
    run.completed = 99_999;
    assert_eq!(run.progress(), None);
    run.completed = 100_000;
    assert_eq!(run.progress(), Some(100_000));
}

#[test]
fn bench_figures() {
    let latencies: Vec<u64> = (1..=1000).rev().collect();
    assert_eq!(
        bench_stats(latencies),
        Some(BenchStats {
            samples: 1000,
            sum: 500_500,
            p50: 501,
            p95: 951,
            p99: 991,
            p999: 1000,
            max: 1000,
        })
    );
    assert_eq!(bench_stats(vec![]), None);
    let huge = bench_stats(vec![u64::MAX, u64::MAX]).unwrap();
    assert_eq!(huge.sum, 2 * (u64::MAX as u128));
}

#[test]
fn bench_text() {
    let mut latencies = vec![4_231];
    for (value, count) in [
        (912, 999),
        (589, 9_000),
        (421, 40_000),
        (320, 449_999),
        (298, 1),
        (290, 500_000),
    ] {
        latencies.extend(std::iter::repeat(value).take(count));
    }
    assert_eq!(
        print_stats("iceoryx2 one-way IPC", latencies),
        "\n=== iceoryx2 one-way IPC latency (1000000 samples) ===\n  \
         mean  :      312 ns\n  \
         p50   :      298 ns\n  \
         p95   :      421 ns\n  \
         p99   :      589 ns\n  \
         p99.9 :      912 ns\n  \
         max   :     4231 ns\n"
    );
}

#[test]
fn wide_figures_are_not_cut() {
    let text = print_stats("x", vec![123_456_789]);
    assert!(text.starts_with("\n=== x latency (1 samples) ===\n  mean  : 123456789 ns\n"));
    assert!(text.ends_with("  max   : 123456789 ns\n"));
}

#[test]
fn nothing_measured_prints_nothing() {
    assert_eq!(print_stats("x", vec![]), "");
}

#[test]
fn printed_stats_ignore_order() {
    let text = print_stats("x", vec![1, 2, 3, 50, 8]);
    assert_eq!(print_stats("x", vec![50, 3, 8, 1, 2]), text);
    assert!(text.contains("  mean  :       13 ns\n"));
}

#[test]
fn mean_is_the_nearest_whole_number() {
    let mean = |latencies: Vec<u64>| mean_text(&bench_stats(latencies).unwrap());
    assert_eq!(mean(vec![7]), "7");
    assert_eq!(mean(vec![1, 1, 2]), "1");
    assert_eq!(mean(vec![1, 2, 2]), "2");
    // halfway: the even neighbour
    assert_eq!(mean(vec![0, 1]), "0");
    assert_eq!(mean(vec![1, 2]), "2");
    assert_eq!(mean(vec![2, 3]), "2");
    assert_eq!(mean(vec![u64::MAX, u64::MAX]), "18446744073709551615");
    for (sum, samples) in [(312_056_297u64, 1_000_000usize), (999, 7), (45, 10), (55, 10)] {
        let mut latencies = vec![0; samples];
        latencies[0] = sum;
        assert_eq!(mean(latencies), format!("{:.0}", sum as f64 / samples as f64));
    }
}

#[test]
fn bench_figures_ascend() {
    let stats = bench_stats(vec![9, 2, 40, 7, 7, 100, 3]).unwrap();
    assert!(stats.p50 <= stats.p95 && stats.p95 <= stats.p99);
    assert!(stats.p99 <= stats.p999 && stats.p999 <= stats.max);
    assert!(stats.sum <= stats.samples as u128 * stats.max as u128);
    assert_eq!(stats.p50, 7);
    assert_eq!(stats.max, 100);
}

#[test]
fn decimal_text() {
    for n in [0, 9, 10, 99, 100, 1_234_567_890, u64::MAX] {
        let mut buf = "x".to_string();
        push_decimal(&mut buf, n);
        assert_eq!(buf, format!("x{n}"));
    }
}

#[test]
fn aligned_text() {
    for s in ["", "1", "12345678", "123456789", "\u{b5}s"] {
        let mut buf = String::new();
        push_right_aligned(&mut buf, s, 8);
        assert_eq!(buf, format!("{s:>8}"));
    }
}

#[test]
fn trimmed_text() {
    for s in ["", "/", "a", "a/", "a//", "/a/b//", "\u{e9}/"] {
        assert_eq!(trim_end_slashes(s), s.trim_end_matches('/'));
    }
}
