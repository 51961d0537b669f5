use hft_pipeline::ilp::{FlushStep, IlpWriter};
use hft_pipeline::influx::{
    execution_latency_ilp, throughput_ilp, write_outcome, InfluxClient, WriteOutcome,
};
use hft_pipeline::market::{MarketTick, OrderSignal, PayloadSize};
use hft_pipeline::order_recorder::OrderRecorder;
use hft_pipeline::price::Price;
use hft_pipeline::symbol::symbol_bytes;
use hft_pipeline::tick_recorder::{DropCounter, TickEvent, TickRecorder};

const MS: u64 = 1_000_000;

fn price(x: f64) -> Price {
    Price { bits: x.to_bits() }
}

fn tick(bid: f64, ask: f64) -> MarketTick {
    MarketTick {
        symbol: symbol_bytes("BTCUSD"),
        bid: price(bid),
        ask: price(ask),
        timestamp_ns: 1_700_000_000,
        seq: 7,
    }
}

fn tick_event(bid: f64, ask: f64) -> TickEvent {
    TickEvent::Tick {
        tick: tick(bid, ask),
        mid: price((bid + ask) * 0.5),
        spread: price(ask - bid),
    }
}

fn order(side: u8, quantity: f64, limit_price: f64) -> OrderSignal {
    OrderSignal {
        symbol: symbol_bytes("BTCUSD"),
        side,
        _pad: [0u8; 7],
        quantity: price(quantity),
        limit_price: price(limit_price),
        signal_ns: 1_500,
        tick_ns: 1_000,
        seq: 3,
    }
}

fn writer_with_tick() -> IlpWriter {
    let mut w = IlpWriter::new("127.0.0.1:9009", 0);
    w.push_tick(&tick(29_990.0, 30_010.0), price(30_000.0), price(20.0));
    w
}

#[test]
fn tick_line_format() {
    let w = writer_with_tick();
    assert_eq!(
        w.pending(),
        "market_ticks,symbol=BTCUSD bid=29990.00000000,ask=30010.00000000,\
         mid=30000.00000000,spread=20.00000000,seq=7i 1700000000\n"
    );
    assert_eq!(w.addr(), "127.0.0.1:9009");
}

#[test]
fn order_line_format() {
    let mut w = IlpWriter::new("a", 0);
    w.push_order(&order(0, 0.01, 30_010.0), 2_250);
    w.push_order(&order(1, 0.01, 29_990.0), 1_200);
    assert_eq!(
        w.pending(),
        "order_signals,symbol=BTCUSD,side=BUY qty=0.01000000,price=30010.00000000,\
         decision_ns=500i,submission_ns=750i,e2e_ns=1250i,seq=3i 1500\n\
         order_signals,symbol=BTCUSD,side=SELL qty=0.01000000,price=29990.00000000,\
         decision_ns=500i,submission_ns=0i,e2e_ns=200i,seq=3i 1500\n"
    );
}

#[test]
fn lines_end_with_their_only_line_break() {
    let w = writer_with_tick();
    assert_eq!(w.pending().matches('\n').count(), 1);
    assert!(w.pending().ends_with('\n'));
}

#[test]
fn non_finite_prices_are_dropped() {
    let mut w = IlpWriter::new("a", 0);
    w.push_tick(&tick(f64::NAN, 1.0), price(1.0), price(1.0));
    w.push_tick(&tick(1.0, f64::INFINITY), price(1.0), price(1.0));
    w.push_order(&order(0, f64::NEG_INFINITY, 1.0), 0);
    w.push_order(&order(0, 1.0, f64::NAN), 0);
    assert_eq!(w.pending(), "");
    // the line's own mid and spread are not looked at
    w.push_tick(
        &tick(-1.7e308, 1.7e308),
        price(0.0),
        price(f64::INFINITY),
    );
    assert!(w.pending().contains(",spread=inf,"));
}

#[test]
fn flush_is_due_by_age() {
    let w = IlpWriter::new("a", 5 * MS);
    assert!(!w.needs_flush(5 * MS));
    assert!(!w.needs_flush(105 * MS - 1));
    assert!(w.needs_flush(105 * MS));
    assert!(!w.needs_flush(0));
}

#[test]
fn flush_is_due_by_size() {
    let mut w = IlpWriter::new("a", 0);
    while w.pending().len() < 32 * 1024 {
        assert!(!w.needs_flush(0));
        w.push_tick(&tick(1.0, 2.0), price(1.5), price(1.0));
    }
    assert!(w.needs_flush(0));
}

#[test]
fn empty_flush_is_idle() {
    let mut w = IlpWriter::new("a", 9);
    assert_eq!(w.flush(), FlushStep::Done);
    assert_eq!(w.flush_reply(FlushStep::Done, true, 50), FlushStep::Done);
    // the time of the last flush has not moved
    assert!(w.needs_flush(9 + 100 * MS));
}

#[test]
fn flush_connects_then_writes() {
    let mut w = writer_with_tick();
    let line = w.pending().to_string();
    let s = w.flush();
    assert_eq!(s, FlushStep::Connect { attempt: 0 });
    let s = w.flush_reply(s, true, 10);
    assert_eq!(s, FlushStep::Write { attempt: 0 });
    assert!(w.is_connected());
    assert_eq!(w.pending(), line);
    let s = w.flush_reply(s, true, 1_000 * MS);
    assert_eq!(s, FlushStep::Done);
    assert_eq!(w.pending(), "");
    assert!(w.is_connected());
    assert!(!w.needs_flush(1_099 * MS));
    assert!(w.needs_flush(1_100 * MS));
    // the connection is used again
    w.push_order(&order(0, 1.0, 1.0), 0);
    assert_eq!(w.flush(), FlushStep::Write { attempt: 0 });
}

#[test]
fn data_survives_reconnects() {
    let mut w = writer_with_tick();
    let line = w.pending().to_string();
    let s = w.flush();
    let s = w.flush_reply(s, true, 1);
    let s = w.flush_reply(s, false, 2);
    assert_eq!(s, FlushStep::Connect { attempt: 1 });
    assert!(!w.is_connected());
    assert_eq!(w.pending(), line);
    let s = w.flush_reply(s, false, 3);
    assert_eq!(s, FlushStep::Connect { attempt: 2 });
    let s = w.flush_reply(s, true, 4);
    assert_eq!(s, FlushStep::Write { attempt: 2 });
    assert_eq!(w.pending(), line);
    assert_eq!(w.flush_reply(s, true, 5), FlushStep::Done);
    assert_eq!(w.pending(), "");
}

#[test]
fn data_is_dropped_after_three_failures() {
    let mut w = writer_with_tick();
    let mut s = w.flush();
    let mut steps = 0;
    while s != FlushStep::Done {
        assert!(!w.pending().is_empty());
        // connections work, writes never do
        let ok = matches!(s, FlushStep::Connect { .. });
        s = w.flush_reply(s, ok, 77 * MS);
        steps += 1;
    }
    assert_eq!(steps, 6);
    assert_eq!(w.pending(), "");
    assert!(!w.is_connected());
    assert!(!w.needs_flush(177 * MS - 1));
    assert!(w.needs_flush(177 * MS));
}

#[test]
fn influx_request() {
    let c = InfluxClient::new("http://127.0.0.1:8086", "hft_org", "hft", "tok");
    assert_eq!(
        c.write_url,
        "http://127.0.0.1:8086/api/v2/write?org=hft_org&bucket=hft&precision=ns"
    );
    assert_eq!(c.auth, "Token tok");
    let r = c.write("a b=1i 2\n".to_string());
    assert_eq!(r.url, c.write_url);
    assert_eq!(r.authorization, "Token tok");
    assert_eq!(r.content_type, "text/plain; charset=utf-8");
    assert_eq!(r.body, "a b=1i 2\n");
}

#[test]
fn influx_url_ignores_end_slashes() {
    let plain = InfluxClient::new("http://h", "o", "b", "t");
    assert_eq!(InfluxClient::new("http://h/", "o", "b", "t"), plain);
    assert_eq!(InfluxClient::new("http://h///", "o", "b", "t"), plain);
    assert_eq!(
        InfluxClient::new("//", "o", "b", "t").write_url,
        "/api/v2/write?org=o&bucket=b&precision=ns"
    );
}

#[test]
fn influx_outcomes() {
    assert_eq!(write_outcome(Some(204)), WriteOutcome::Accepted);
    assert_eq!(write_outcome(Some(200)), WriteOutcome::Accepted);
    assert_eq!(write_outcome(Some(299)), WriteOutcome::Accepted);
    assert_eq!(write_outcome(Some(300)), WriteOutcome::Rejected { status: 300 });
    assert_eq!(write_outcome(Some(199)), WriteOutcome::Rejected { status: 199 });
    assert_eq!(write_outcome(Some(401)), WriteOutcome::Rejected { status: 401 });
    assert_eq!(write_outcome(None), WriteOutcome::Failed);
}

#[test]
fn execution_latency_line_format() {
    let e2e: Vec<u64> = (1..=1000).collect();
    let decision: Vec<u64> = (101..=200).collect();
    assert_eq!(
        execution_latency_ilp("BTCUSD", &e2e, &decision, 1234, 99),
        "execution_latency,symbol=BTCUSD e2e_p50=501i,e2e_p99=991i,e2e_p999=1000i,\
         decision_p50=151i,decision_p99=200i,count=1234i 99\n"
    );
    assert_eq!(execution_latency_ilp("BTCUSD", &[], &[], 5, 6), "");
}

#[test]
fn throughput_line_format() {
    assert_eq!(
        throughput_ilp("BTCUSD", 0, u64::MAX),
        "throughput,symbol=BTCUSD orders_total=0i 18446744073709551615\n"
    );
}

#[test]
fn orders_are_recorded_and_reported() {
    let mut w = IlpWriter::new("a", 0);
    let mut r = OrderRecorder::new("BTCUSD");
    assert_eq!(r.report(1), None);

    let rec = r.record(&mut w, &order(0, 0.01, 30_010.0), 3_000);
    assert_eq!(rec.latencies.decision_ns, 500);
    assert_eq!(rec.latencies.submission_ns, 1_500);
    assert_eq!(rec.latencies.e2e_ns, 2_000);
    assert_eq!(rec.flush, FlushStep::Connect { attempt: 0 });
    let mut early = order(1, 0.01, 29_990.0);
    early.signal_ns = 1_100;
    r.record(&mut w, &early, 1_400);
    assert_eq!(w.pending().matches('\n').count(), 2);

    let report = r.report(77).unwrap();
    assert_eq!(report.orders_total, 2);
    assert_eq!(report.e2e_p50, 2_000);
    assert_eq!(report.e2e_p99, 2_000);
    assert_eq!(
        report.body,
        "execution_latency,symbol=BTCUSD e2e_p50=2000i,e2e_p99=2000i,e2e_p999=2000i,\
         decision_p50=500i,decision_p99=500i,count=2i 77\n\
         throughput,symbol=BTCUSD orders_total=2i 77\n"
    );

    // latencies start anew, the total goes on
    assert_eq!(r.report(78), None);
    r.record(&mut w, &early, 1_400);
    let report = r.report(79).unwrap();
    assert_eq!(report.orders_total, 3);
    assert_eq!(report.e2e_p50, 400);
    assert_eq!(r.orders_total(), 3);
}

/// Answers a flush with success and gives what was sent.
fn accept(w: &mut IlpWriter, first: FlushStep) -> String {
    let mut sent = String::new();
    let mut step = first;
    while step != FlushStep::Done {
        if matches!(step, FlushStep::Write { .. }) {
            sent.push_str(w.pending());
        }
        step = w.flush_reply(step, true, 0);
    }
    sent
}

#[test]
fn order_payload_is_recorded() {
    let mut w = IlpWriter::new("a", 0);
    let mut r = OrderRecorder::new("BTCUSD");
    let o = order(0, 0.01, 30_010.0);
    let recorded = r.on_payload(&mut w, &o.to_bytes(), 3_000).unwrap();
    assert_eq!(recorded.order, o);
    assert_eq!(recorded.latencies.e2e_ns, 2_000);
    assert_eq!(r.orders_total(), 1);

    let mut expected = IlpWriter::new("a", 0);
    expected.push_order(&o, 3_000);
    assert_eq!(w.pending(), expected.pending());
    assert_eq!(accept(&mut w, recorded.flush), expected.pending());
    assert_eq!(w.pending(), "");
}

#[test]
fn order_payload_of_wrong_size_changes_nothing() {
    let mut w = writer_with_tick();
    let before = w.pending().to_string();
    let mut r = OrderRecorder::new("BTCUSD");
    for len in [0, 40, 55, 57] {
        let refused = r.on_payload(&mut w, &vec![0u8; len], 3_000);
        assert_eq!(refused, Err(PayloadSize { len }));
    }
    assert_eq!(w.pending(), before);
    assert_eq!(r.orders_total(), 0);
    assert_eq!(r.report(1), None);
}

#[test]
fn every_tick_line_is_sent_once() {
    let mut w = IlpWriter::new("a", 0);
    let mut r = TickRecorder::new();
    let mut all = IlpWriter::new("a", 0);
    let mut sent = String::new();
    for i in 0..600u64 {
        let bid = if i % 50 == 7 { f64::NAN } else { i as f64 };
        let event = match i % 97 {
            11 => TickEvent::FlushTimer,
            12 => TickEvent::StatsTimer,
            _ => tick_event(bid, i as f64 + 0.5),
        };
        if let TickEvent::Tick { tick, mid, spread } = event {
            all.push_tick(&tick, mid, spread);
        }
        let action = r.on_event(&mut w, &event, 1);
        sent.push_str(&accept(&mut w, action.flush));
        assert_eq!(format!("{}{}", sent, w.pending()), all.pending());
    }
    assert!(!w.pending().is_empty());
    let action = r.on_event(&mut w, &TickEvent::Closed, 1);
    sent.push_str(&accept(&mut w, action.flush));
    assert_eq!(sent, all.pending());
    assert_eq!(w.pending(), "");
}

#[test]
fn failed_flush_sends_nothing_of_its_data() {
    let mut w = writer_with_tick();
    let mut step = w.flush();
    while step != FlushStep::Done {
        step = w.flush_reply(step, false, 0);
    }
    w.push_order(&order(0, 1.0, 2.0), 0);
    let later = w.pending().to_string();
    assert!(later.starts_with("order_signals,"));
    let first = w.flush();
    assert_eq!(accept(&mut w, first), later);
}

#[test]
fn non_finite_order_still_counts() {
    let mut w = IlpWriter::new("a", 0);
    let mut r = OrderRecorder::new("X");
    let rec = r.record(&mut w, &order(0, f64::NAN, 1.0), 3_000);
    assert_eq!(rec.flush, FlushStep::Done);
    assert_eq!(w.pending(), "");
    assert_eq!(r.orders_total(), 1);
    assert!(r.report(0).is_some());
}

#[test]
fn tick_recorder_events() {
    let mut w = IlpWriter::new("a", 0);
    let mut r = TickRecorder::new();

    let a = r.on_event(&mut w, &tick_event(1.0, 2.0), 50 * MS);
    assert_eq!(a.flush, FlushStep::Done);
    assert!(!a.stop);
    assert_eq!(a.report, None);

    let a = r.on_event(&mut w, &tick_event(1.0, 2.0), 100 * MS);
    assert_eq!(a.flush, FlushStep::Connect { attempt: 0 });

    let a = r.on_event(&mut w, &tick_event(f64::NAN, 2.0), 1);
    assert_eq!(a.flush, FlushStep::Done);
    assert_eq!(w.pending().matches('\n').count(), 2);

    let a = r.on_event(&mut w, &TickEvent::StatsTimer, 100 * MS);
    assert_eq!(a.report, Some(3));
    assert_eq!(a.flush, FlushStep::Done);

    let a = r.on_event(&mut w, &TickEvent::FlushTimer, 1);
    assert_eq!(a.flush, FlushStep::Connect { attempt: 0 });
    assert!(!a.stop);

    let a = r.on_event(&mut w, &TickEvent::Closed, 1);
    assert_eq!(a.flush, FlushStep::Connect { attempt: 0 });
    assert!(a.stop);
}

#[test]
fn drops_are_reported_every_ten_thousand() {
    let mut d = DropCounter::new();
    assert_eq!(d.on_drop(), Some(0));
    for _ in 1..10_000 {
        assert_eq!(d.on_drop(), None);
    }
    assert_eq!(d.on_drop(), Some(10_000));
    let mut d = DropCounter { dropped: u64::MAX };
    assert_eq!(d.on_drop(), None);
    assert_eq!(d.dropped, 0);
}
