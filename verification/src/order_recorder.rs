//! Order recorder: persists order signals to QuestDB, latency metrics to InfluxDB.
//!
//! Sits at the final hop of the pipeline, behind the order gateway.  The time at
//! which an order arrives here is its submission time, which gives three
//! latency measures:
//!
//!   decision_ns   = signal_ns - tick_ns        (strategy think time)
//!   submission_ns = submitted_ns - signal_ns   (gateway + routing overhead)
//!   e2e_ns        = submitted_ns - tick_ns     (full tick-to-order path)
//!
//! From time to time the latency distributions are sorted and percentile metrics
//! are posted to InfluxDB for Grafana dashboards.

use vstd::endian::endianness;
use vstd::prelude::*;

use crate::ilp::{FlushStep, IlpState, IlpWriter};
use crate::influx::{execution_latency_ilp, throughput_ilp};
use crate::latency::{quantile_of, sort_samples, OrderLatencies};
use crate::market::{OrderSignal, PayloadSize};

verus! {

/// What an order recorder has gathered.
#[verifier::ext_equal]
pub struct OrderRecorderState {
    /// Symbol that the metrics are tagged with.
    pub symbol: Seq<char>,
    /// End-to-end latencies since the last report.
    pub e2e: Seq<u64>,
    /// Decision latencies since the last report.
    pub decision: Seq<u64>,
    /// Orders since the start.
    pub orders_total: u64,
}

impl OrderRecorderState {
    /// Each order since the last report has left one latency of each kind.
    pub open spec fn valid(self) -> bool {
        self.e2e.len() == self.decision.len() <= self.orders_total
    }

    /// The state after one more order.
    pub open spec fn with_order(self, order: OrderSignal, submitted_ns: u64) -> OrderRecorderState {
        let l = OrderLatencies::spec_of(order, submitted_ns);
        OrderRecorderState {
            e2e: self.e2e.push(l.e2e_ns),
            decision: self.decision.push(l.decision_ns),
            orders_total: (self.orders_total + 1) as u64,
            ..self
        }
    }

    /// The state after a report.
    pub open spec fn reported(self) -> OrderRecorderState {
        OrderRecorderState { e2e: seq![], decision: seq![], ..self }
    }

    /// The lines that a report posts.
    pub open spec fn report_body(self, ts: u64) -> Seq<char> {
        crate::influx::execution_latency_line(
            self.symbol,
            crate::latency::in_order(self.e2e),
            crate::latency::in_order(self.decision),
            self.orders_total,
            ts,
        ) + crate::influx::throughput_line(self.symbol, self.orders_total, ts)
    }
}

/// The outcome of recording an order.
#[derive(Clone, Copy, Debug, PartialEq, Eq)]
pub struct RecordedOrder {
    pub order: OrderSignal,
    pub latencies: OrderLatencies,
    /// What to do first to write the order out.
    pub flush: FlushStep,
}

/// Metrics to post and to log.
#[derive(Debug, PartialEq, Eq)]
pub struct MetricsReport {
    /// ILP lines for InfluxDB.
    pub body: String,
    pub orders_total: u64,
    pub e2e_p50: u64,
    pub e2e_p99: u64,
}

/// Gathers the latencies of recorded orders.
#[derive(Debug)]
pub struct OrderRecorder {
    symbol: String,
    e2e: Vec<u64>,
    decision: Vec<u64>,
    orders_total: u64,
}

impl View for OrderRecorder {
    type V = OrderRecorderState;

    closed spec fn view(&self) -> OrderRecorderState {
        OrderRecorderState {
            symbol: self.symbol@,
            e2e: self.e2e@,
            decision: self.decision@,
            orders_total: self.orders_total,
        }
    }
}

impl OrderRecorder {
    /// A recorder that tags its metrics with `symbol`.
    pub fn new(symbol: &str) -> (r: OrderRecorder)
        ensures
            r@.valid(),
            r@ == (OrderRecorderState {
                symbol: symbol@,
                e2e: seq![],
                decision: seq![],
                orders_total: 0,
            }),
    {
        OrderRecorder {
            symbol: symbol.to_owned(),
            e2e: Vec::new(),
            decision: Vec::new(),
            orders_total: 0,
        }
    }

    /// Orders since the start.
    pub fn orders_total(&self) -> (r: u64)
        ensures
            r == self@.orders_total,
    {
        self.orders_total
    }

    /// Records an order that was submitted at `submitted_ns` and asks for it to
    /// be written out at once.
    pub fn record(
        &mut self,
        writer: &mut IlpWriter,
        order: &OrderSignal,
        submitted_ns: u64,
    ) -> (r: RecordedOrder)
        requires
            old(self)@.valid(),
            old(self)@.orders_total < u64::MAX,
        ensures
            final(self)@.valid(),
            final(self)@ == old(self)@.with_order(*order, submitted_ns),
            final(writer)@ == old(writer)@.with_order(*order, submitted_ns),
            r.order == *order,
            r.latencies == OrderLatencies::spec_of(*order, submitted_ns),
            r.flush == final(writer)@.flush_start(),
    {
        let latencies = OrderLatencies::of(order, submitted_ns);
        self.e2e.push(latencies.e2e_ns);
        self.decision.push(latencies.decision_ns);
        self.orders_total = self.orders_total + 1;
        writer.push_order(order, submitted_ns);
        RecordedOrder { order: *order, latencies, flush: writer.flush() }
    }

    /// Records the order that a payload holds, as `record` does.  A payload of
    /// unexpected size is refused and changes nothing.
    pub fn on_payload(
        &mut self,
        writer: &mut IlpWriter,
        bytes: &[u8],
        submitted_ns: u64,
    ) -> (r: Result<RecordedOrder, PayloadSize>)
        requires
            old(self)@.valid(),
            bytes@.len() == crate::market::ORDER_LEN ==> old(self)@.orders_total < u64::MAX,
        ensures
            final(self)@.valid(),
            r is Ok == (bytes@.len() == crate::market::ORDER_LEN),
            r matches Ok(recorded) ==> {
                &&& recorded.order.wire(endianness()) == bytes@
                &&& final(self)@ == old(self)@.with_order(recorded.order, submitted_ns)
                &&& final(writer)@ == old(writer)@.with_order(recorded.order, submitted_ns)
                &&& recorded.latencies == OrderLatencies::spec_of(recorded.order, submitted_ns)
                &&& recorded.flush == final(writer)@.flush_start()
            },
            r matches Err(e) ==> {
                &&& e.len == bytes@.len()
                &&& final(self)@ == old(self)@
                &&& final(writer)@ == old(writer)@
            },
    {
        match OrderSignal::from_bytes(bytes) {
            Ok(order) => Ok(self.record(writer, &order, submitted_ns)),
            Err(e) => Err(e),
        }
    }

    /// Where orders came since the last report, gives the metrics and starts
    /// anew.
    pub fn report(&mut self, ts: u64) -> (r: Option<MetricsReport>)
        requires
            old(self)@.valid(),
        ensures
            final(self)@.valid(),
            r is Some == (old(self)@.e2e.len() > 0),
            final(self)@ == (if r is Some {
                old(self)@.reported()
            } else {
                old(self)@
            }),
            r matches Some(report) ==> {
                let sorted = crate::latency::in_order(old(self)@.e2e);
                &&& report.body@ == old(self)@.report_body(ts)
                &&& report.orders_total == old(self)@.orders_total
                &&& report.e2e_p50 == crate::latency::quantile(sorted, 50, 100)
                &&& report.e2e_p99 == crate::latency::quantile(sorted, 99, 100)
            },
    {
        if self.e2e.len() == 0 {
            return None;
        }
        proof {
            crate::latency::lemma_in_order(self.e2e@);
            crate::latency::lemma_in_order(self.decision@);
        }
        sort_samples(&mut self.e2e);
        sort_samples(&mut self.decision);
        let symbol = self.symbol.as_str();
        let mut body = execution_latency_ilp(
            symbol,
            self.e2e.as_slice(),
            self.decision.as_slice(),
            self.orders_total,
            ts,
        );
        body.append(throughput_ilp(symbol, self.orders_total, ts).as_str());
        let e2e_p50: u64 = quantile_of(self.e2e.as_slice(), 50, 100);
        let e2e_p99: u64 = quantile_of(self.e2e.as_slice(), 99, 100);
        self.e2e.clear();
        self.decision.clear();
        assert(self@ =~= old(self)@.reported());
        Some(MetricsReport { body, orders_total: self.orders_total, e2e_p50, e2e_p99 })
    }
}

/// An order is written out at once.  Where nothing waits before it, the flush that
/// follows it sends its line and nothing else, or nothing where all attempts fail,
/// and nothing waits after it.  A non-finite order has no line.
pub proof fn law_order_is_written_at_once(
    writer: IlpState,
    order: OrderSignal,
    submitted_ns: u64,
    replies: Seq<(bool, u64)>,
)
    requires
        writer.buf.len() == 0,
        replies.len() >= 2 * crate::ilp::FLUSH_ATTEMPTS,
    ensures
        ({
            let recorded = writer.with_order(order, submitted_ns);
            let step = recorded.flush_start();
            let sent = crate::ilp::flush_sent(recorded, step, replies);
            let finite = order.quantity.finite() && order.limit_price.finite();
            let line = crate::ilp::order_line(order, submitted_ns);
            &&& crate::ilp::flush_run(recorded, step, replies).0.buf.len() == 0
            &&& sent.len() == 0 || (finite && sent == line)
            &&& finite && crate::ilp::all_succeed(replies) ==> sent == line
        }),
{
    let recorded = writer.with_order(order, submitted_ns);
    assert(writer.buf + crate::ilp::order_line(order, submitted_ns) =~= crate::ilp::order_line(
        order,
        submitted_ns,
    ));
    crate::ilp::law_flush_sends_all_or_nothing(recorded, replies);
}

/// The state after a run of orders, each with its submission time.
pub open spec fn after_orders(
    state: OrderRecorderState,
    orders: Seq<(OrderSignal, u64)>,
) -> OrderRecorderState
    decreases orders.len(),
{
    if orders.len() == 0 {
        state
    } else {
        after_orders(state, orders.drop_last()).with_order(orders.last().0, orders.last().1)
    }
}

/// A report covers exactly the orders since the report before it, one latency of
/// each kind for each of them, while the total goes on counting.
pub proof fn law_report_covers_orders_since_last(
    state: OrderRecorderState,
    orders: Seq<(OrderSignal, u64)>,
)
    requires
        state.valid(),
        state.orders_total + orders.len() <= u64::MAX,
    ensures
        ({
            let end = after_orders(state.reported(), orders);
            &&& end.valid()
            &&& end.symbol == state.symbol
            &&& end.orders_total == state.orders_total + orders.len()
            &&& end.e2e == orders.map_values(
                |o: (OrderSignal, u64)| OrderLatencies::spec_of(o.0, o.1).e2e_ns,
            )
            &&& end.decision == orders.map_values(
                |o: (OrderSignal, u64)| OrderLatencies::spec_of(o.0, o.1).decision_ns,
            )
        }),
    decreases orders.len(),
{
    let e2e_of = |o: (OrderSignal, u64)| OrderLatencies::spec_of(o.0, o.1).e2e_ns;
    let decision_of = |o: (OrderSignal, u64)| OrderLatencies::spec_of(o.0, o.1).decision_ns;
    let end = after_orders(state.reported(), orders);
    if orders.len() > 0 {
        law_report_covers_orders_since_last(state, orders.drop_last());
    }
    assert(end.e2e =~= orders.map_values(e2e_of));
    assert(end.decision =~= orders.map_values(decision_of));
}

/// An order leaves its end-to-end and its decision latency behind those of the
/// orders before it, and is counted; a report starts with no latencies and goes on
/// counting.
pub proof fn law_order_leaves_its_latencies(
    state: OrderRecorderState,
    order: OrderSignal,
    submitted_ns: u64,
)
    requires
        state.orders_total < u64::MAX,
    ensures
        ({
            let after = state.with_order(order, submitted_ns);
            let e2e = crate::latency::nanos_between(order.tick_ns, submitted_ns);
            let decision = crate::latency::nanos_between(order.tick_ns, order.signal_ns);
            &&& after.symbol == state.symbol
            &&& after.orders_total == state.orders_total + 1
            &&& after.e2e == state.e2e.push(e2e as u64)
            &&& after.decision == state.decision.push(decision as u64)
        }),
        ({
            let after = state.reported();
            &&& after.symbol == state.symbol
            &&& after.orders_total == state.orders_total
            &&& after.e2e.len() == 0 && after.decision.len() == 0
        }),
{
}

/// A report is two lines that read back as the metrics: percentiles of the latencies
/// in ascending order, whatever order they came in, and the order total.
pub proof fn law_report_reads_back(
    state: OrderRecorderState,
    ts: u64,
    e2e: Seq<u64>,
    decision: Seq<u64>,
)
    requires
        state.valid(),
        state.e2e.len() > 0,
        e2e.to_multiset() == state.e2e.to_multiset(),
        decision.to_multiset() == state.decision.to_multiset(),
        forall|i: int, j: int| 0 <= i <= j < e2e.len() ==> e2e[i] <= e2e[j],
        forall|i: int, j: int| 0 <= i <= j < decision.len() ==> decision[i] <= decision[j],
    ensures
        exists|first: Seq<char>, second: Seq<char>|
            {
                &&& state.report_body(ts) == first + second
                &&& #[trigger] crate::influx::shows_execution_latency(
                    first,
                    state.symbol,
                    e2e,
                    decision,
                    state.orders_total,
                    ts,
                )
                &&& #[trigger] crate::influx::shows_throughput(
                    second,
                    state.symbol,
                    state.orders_total,
                    ts,
                )
            },
{
    crate::latency::law_sorting_arranges_the_samples(state.e2e, e2e);
    crate::latency::law_sorting_arranges_the_samples(state.decision, decision);
    crate::latency::lemma_in_order(state.e2e);
    crate::latency::lemma_in_order(state.decision);
    crate::influx::law_execution_latency_reads_back(
        state.symbol,
        e2e,
        decision,
        state.orders_total,
        ts,
    );
    crate::influx::law_throughput_reads_back(state.symbol, state.orders_total, ts);
}

} // verus!
