//! Latency samples: spans between timestamps, percentiles, reporting windows.

use vstd::arithmetic::div_mod::lemma_fundamental_div_mod;
use vstd::prelude::*;
use vstd::relations::{sorted_by, total_ordering};
use vstd::seq_lib::lemma_sorted_unique;

use crate::market::OrderSignal;

verus! {

/// Time between two latency reports.
pub const REPORT_INTERVAL_NS: u64 = 5_000_000_000;

/// Time between two throughput reports.
pub const RATE_INTERVAL_NS: u64 = 1_000_000_000;

/// Nanoseconds from one timestamp to another; none where the second is earlier.
pub open spec fn span(from_ns: u64, to_ns: u64) -> u64 {
    if to_ns >= from_ns {
        (to_ns - from_ns) as u64
    } else {
        0
    }
}

/// No sample is smaller than one before it.
pub open spec fn ascending(samples: Seq<u64>) -> bool {
    forall|i: int, j: int| 0 <= i <= j < samples.len() ==> samples[i] <= samples[j]
}

/// The samples in ascending order.
pub open spec fn in_order(samples: Seq<u64>) -> Seq<u64> {
    samples.sort_by(|a: u64, b: u64| a <= b)
}

/// Position of a quantile among `n` samples in ascending order.
pub open spec fn rank(n: nat, num: nat, den: nat) -> int {
    let at = n * num / den;
    if at < n {
        at as int
    } else {
        n - 1
    }
}

/// The quantile `num / den` of samples in ascending order.
pub open spec fn quantile(sorted: Seq<u64>, num: nat, den: nat) -> u64 {
    sorted[rank(sorted.len(), num, den)]
}

/// Nanoseconds from one timestamp to another; 0 where the second is earlier.
pub fn span_ns(from_ns: u64, to_ns: u64) -> (r: u64)
    ensures
        r == span(from_ns, to_ns),
{
    to_ns.saturating_sub(from_ns)
}

/// `<[u64]>::sort_unstable`: reorders the samples so that they ascend.
#[verifier::external_body]
fn sort_unstable(samples: &mut Vec<u64>)
    ensures
        ascending(final(samples)@),
        final(samples)@.to_multiset() == old(samples)@.to_multiset(),
{
    samples.sort_unstable()
}

/// Any ascending arrangement of the samples is `in_order`.
proof fn lemma_in_order_unique(samples: Seq<u64>, sorted: Seq<u64>)
    requires
        ascending(sorted),
        sorted.to_multiset() == samples.to_multiset(),
    ensures
        sorted == in_order(samples),
{
    let leq = |a: u64, b: u64| a <= b;
    assert(total_ordering(leq));
    samples.lemma_sort_by_ensures(leq);
    assert(sorted_by(sorted, leq));
    lemma_sorted_unique(sorted, in_order(samples), leq);
}

/// What sorting keeps.
pub proof fn lemma_in_order(samples: Seq<u64>)
    ensures
        ascending(in_order(samples)),
        in_order(samples).to_multiset() == samples.to_multiset(),
        in_order(samples).len() == samples.len(),
{
    let leq = |a: u64, b: u64| a <= b;
    assert(total_ordering(leq));
    samples.lemma_sort_by_ensures(leq);
    let sorted = in_order(samples);
    assert forall|i: int, j: int| 0 <= i <= j < sorted.len() implies sorted[i] <= sorted[j] by {
        if i < j {
            assert(leq(sorted[i], sorted[j]));
        }
    }
    samples.to_multiset_ensures();
    sorted.to_multiset_ensures();
}

/// Samples that came in another order are the same in order.
pub proof fn lemma_in_order_same(a: Seq<u64>, b: Seq<u64>)
    requires
        a.to_multiset() == b.to_multiset(),
    ensures
        in_order(a) == in_order(b),
{
    lemma_in_order(a);
    lemma_in_order_unique(b, in_order(a));
}

/// No sample exceeds the last one in order.
pub proof fn lemma_in_order_bounds(samples: Seq<u64>)
    requires
        samples.len() > 0,
    ensures
        forall|i: int| 0 <= i < samples.len() ==> samples[i] <= in_order(samples).last(),
{
    lemma_in_order(samples);
    let sorted = in_order(samples);
    assert forall|i: int| 0 <= i < samples.len() implies samples[i] <= sorted.last() by {
        lemma_same_members(sorted, samples, i);
        let k = choose|k: int| 0 <= k < sorted.len() && sorted[k] == samples[i];
        assert(sorted[k] <= sorted[sorted.len() - 1]);
    }
}

/// Sorts samples in ascending order.
pub fn sort_samples(samples: &mut Vec<u64>)
    ensures
        final(samples)@ == in_order(old(samples)@),
{
    sort_unstable(samples);
    proof {
        lemma_in_order_unique(old(samples)@, samples@);
    }
}

/// The quantile `num / den` of samples in ascending order.
pub fn quantile_of(sorted: &[u64], num: u64, den: u64) -> (r: u64)
    requires
        sorted@.len() > 0,
        den > 0,
    ensures
        r == quantile(sorted@, num as nat, den as nat),
{
    let n: usize = sorted.len();
    proof {
        assert((n as u128) * (num as u128) <= u128::MAX) by (nonlinear_arith)
            requires
                n <= usize::MAX,
                num <= u64::MAX,
                usize::MAX <= 0xffff_ffff_ffff_ffff,
        ;
    }
    let at: u128 = (n as u128) * (num as u128) / (den as u128);
    if at < n as u128 {
        sorted[at as usize]
    } else {
        sorted[n - 1]
    }
}

/// Percentiles of a window of latency samples.
#[derive(Clone, Copy, Debug, PartialEq, Eq, Structural)]
pub struct LatencyReport {
    pub samples: usize,
    pub p50: u64,
    pub p99: u64,
    pub p999: u64,
    pub max: u64,
}

impl LatencyReport {
    /// The report describes these samples.
    pub open spec fn describes(self, samples: Seq<u64>) -> bool {
        let sorted = in_order(samples);
        &&& self.samples == samples.len()
        &&& self.p50 == quantile(sorted, 50, 100)
        &&& self.p99 == quantile(sorted, 99, 100)
        &&& self.p999 == quantile(sorted, 999, 1000)
        &&& self.max == sorted.last()
    }
}

/// A report is owed on samples of a window that opened at `opened_ns`.
pub open spec fn window_due(samples: Seq<u64>, opened_ns: u64, now_ns: u64) -> bool {
    samples.len() > 0 && span(opened_ns, now_ns) >= REPORT_INTERVAL_NS
}

/// Latency samples gathered since the last report.
#[derive(Debug)]
pub struct LatencyWindow {
    /// The samples, in the order in which they came.
    pub samples: Vec<u64>,
    /// When the window was opened, on a clock of the caller's.
    pub opened_ns: u64,
}

impl LatencyWindow {
    /// An empty window that opens at `now_ns`.
    pub fn new(now_ns: u64) -> (r: LatencyWindow)
        ensures
            r.samples@.len() == 0,
            r.opened_ns == now_ns,
    {
        LatencyWindow { samples: Vec::new(), opened_ns: now_ns }
    }

    /// Adds a sample.
    pub fn record(&mut self, latency_ns: u64)
        ensures
            final(self).samples@ == old(self).samples@.push(latency_ns),
            final(self).opened_ns == old(self).opened_ns,
    {
        self.samples.push(latency_ns);
    }

    /// A report is owed: the window holds a sample and is at least as old as the
    /// reporting interval.
    pub open spec fn due(self, now_ns: u64) -> bool {
        window_due(self.samples@, self.opened_ns, now_ns)
    }

    /// Where a report is owed, gives it and starts an empty window.
    pub fn close(&mut self, now_ns: u64) -> (r: Option<LatencyReport>)
        ensures
            r is Some == old(self).due(now_ns),
            r matches Some(report) ==> {
                &&& report.describes(old(self).samples@)
                &&& final(self).samples@.len() == 0
                &&& final(self).opened_ns == now_ns
            },
            r is None ==> *final(self) == *old(self),
    {
        if span_ns(self.opened_ns, now_ns) < REPORT_INTERVAL_NS || self.samples.len() == 0 {
            return None;
        }
        sort_samples(&mut self.samples);
        proof {
            lemma_in_order(old(self).samples@);
        }
        let sorted = self.samples.as_slice();
        let n: usize = sorted.len();
        let report = LatencyReport {
            samples: n,
            p50: quantile_of(sorted, 50, 100),
            p99: quantile_of(sorted, 99, 100),
            p999: quantile_of(sorted, 999, 1000),
            max: sorted[n - 1],
        };
        self.samples.clear();
        self.opened_ns = now_ns;
        Some(report)
    }
}

/// What can happen to a latency window.
pub enum WindowEvent {
    /// A sample is recorded.
    Record { latency_ns: u64 },
    /// A report is asked for.
    Close { now_ns: u64 },
}

/// What has become of the samples of a window.
#[verifier::ext_equal]
pub struct WindowHistory {
    /// The samples of each report, report by report.
    pub reported: Seq<Seq<u64>>,
    /// The samples that wait for a report.
    pub waiting: Seq<u64>,
    /// When the present window was opened.
    pub opened_ns: u64,
}

/// What becomes of the samples of a window that opens at `opened_ns`.
pub open spec fn window_history(opened_ns: u64, events: Seq<WindowEvent>) -> WindowHistory
    decreases events.len(),
{
    if events.len() == 0 {
        WindowHistory { reported: seq![], waiting: seq![], opened_ns }
    } else {
        let before = window_history(opened_ns, events.drop_last());
        match events.last() {
            WindowEvent::Record { latency_ns } => WindowHistory {
                waiting: before.waiting.push(latency_ns),
                ..before
            },
            WindowEvent::Close { now_ns } => if window_due(
                before.waiting,
                before.opened_ns,
                now_ns,
            ) {
                WindowHistory {
                    reported: before.reported.push(before.waiting),
                    waiting: seq![],
                    opened_ns: now_ns,
                }
            } else {
                before
            },
        }
    }
}

/// The samples that the events record.
pub open spec fn recorded_samples(events: Seq<WindowEvent>) -> Seq<u64>
    decreases events.len(),
{
    if events.len() == 0 {
        seq![]
    } else {
        match events.last() {
            WindowEvent::Record { latency_ns } => recorded_samples(events.drop_last()).push(
                latency_ns,
            ),
            WindowEvent::Close { .. } => recorded_samples(events.drop_last()),
        }
    }
}

/// Every sample goes into one report or still waits, in the order in which the
/// samples came; no report is empty.
pub proof fn law_every_sample_is_reported_once(opened_ns: u64, events: Seq<WindowEvent>)
    ensures
        ({
            let history = window_history(opened_ns, events);
            &&& history.reported.flatten() + history.waiting == recorded_samples(events)
            &&& forall|i: int|
                0 <= i < history.reported.len() ==> (#[trigger] history.reported[i]).len() > 0
        }),
    decreases events.len(),
{
    let history = window_history(opened_ns, events);
    if events.len() == 0 {
        assert(history.reported.flatten() + history.waiting =~= seq![]);
    } else {
        law_every_sample_is_reported_once(opened_ns, events.drop_last());
        let before = window_history(opened_ns, events.drop_last());
        match events.last() {
            WindowEvent::Record { .. } => {},
            WindowEvent::Close { now_ns } => {
                before.reported.lemma_flatten_push(before.waiting);
            },
        }
        assert(history.reported.flatten() + history.waiting =~= recorded_samples(events));
    }
}

/// Counts messages for the throughput log.
#[derive(Clone, Copy, Debug, PartialEq, Eq, Structural)]
pub struct RateMeter {
    /// Messages since the meter was last read.
    pub count: u64,
    /// When counting started, on a clock of the caller's.
    pub opened_ns: u64,
}

/// What a rate meter has counted, and in which time.
#[derive(Clone, Copy, Debug, PartialEq, Eq, Structural)]
pub struct RateReport {
    pub count: u64,
    pub elapsed_ns: u64,
}

impl RateMeter {
    /// A meter that starts to count at `now_ns`.
    pub fn new(now_ns: u64) -> (r: RateMeter)
        ensures
            r == (RateMeter { count: 0, opened_ns: now_ns }),
    {
        RateMeter { count: 0, opened_ns: now_ns }
    }

    /// Counts one message.
    pub fn bump(&mut self)
        requires
            old(self).count < u64::MAX,
        ensures
            *final(self) == (RateMeter {
                count: (old(self).count + 1) as u64,
                opened_ns: old(self).opened_ns,
            }),
    {
        self.count = self.count + 1;
    }

    /// Once a second has passed, gives the count and starts anew.
    pub fn close(&mut self, now_ns: u64) -> (r: Option<RateReport>)
        ensures
            r == (if span(old(self).opened_ns, now_ns) >= RATE_INTERVAL_NS {
                Some(
                    RateReport {
                        count: old(self).count,
                        elapsed_ns: span(old(self).opened_ns, now_ns),
                    },
                )
            } else {
                None
            }),
            *final(self) == (if r is Some {
                RateMeter { count: 0, opened_ns: now_ns }
            } else {
                *old(self)
            }),
    {
        let elapsed: u64 = span_ns(self.opened_ns, now_ns);
        if elapsed < RATE_INTERVAL_NS {
            return None;
        }
        let report = RateReport { count: self.count, elapsed_ns: elapsed };
        self.count = 0;
        self.opened_ns = now_ns;
        Some(report)
    }
}

/// The three latencies of a submitted order.
#[derive(Clone, Copy, Debug, PartialEq, Eq, Structural)]
pub struct OrderLatencies {
    /// From the tick to the decision.
    pub decision_ns: u64,
    /// From the decision to the submission.
    pub submission_ns: u64,
    /// From the tick to the submission.
    pub e2e_ns: u64,
}

impl OrderLatencies {
    /// The latencies of `order`, submitted at `submitted_ns`.
    pub open spec fn spec_of(order: OrderSignal, submitted_ns: u64) -> OrderLatencies {
        OrderLatencies {
            decision_ns: span(order.tick_ns, order.signal_ns),
            submission_ns: span(order.signal_ns, submitted_ns),
            e2e_ns: span(order.tick_ns, submitted_ns),
        }
    }

    /// The latencies of `order`, submitted at `submitted_ns`.
    pub fn of(order: &OrderSignal, submitted_ns: u64) -> (r: OrderLatencies)
        ensures
            r == OrderLatencies::spec_of(*order, submitted_ns),
    {
        OrderLatencies {
            decision_ns: span_ns(order.tick_ns, order.signal_ns),
            submission_ns: span_ns(order.signal_ns, submitted_ns),
            e2e_ns: span_ns(order.tick_ns, submitted_ns),
        }
    }
}

/// Where the three timestamps of an order follow each other, the end-to-end
/// latency is the sum of decision and submission.
pub proof fn law_latencies_add_up(order: OrderSignal, submitted_ns: u64)
    requires
        order.tick_ns <= order.signal_ns <= submitted_ns,
    ensures
        ({
            let l = OrderLatencies::spec_of(order, submitted_ns);
            l.e2e_ns == l.decision_ns + l.submission_ns
        }),
{
}

/// A quantile below 1 splits ascending samples: none before its position is
/// larger, none behind it is smaller, and the position is the quantile's share
/// of the samples, rounded down.
pub proof fn law_quantile_splits(sorted: Seq<u64>, num: nat, den: nat)
    requires
        ascending(sorted),
        sorted.len() > 0,
        num < den,
    ensures
        0 <= rank(sorted.len(), num, den) < sorted.len(),
        rank(sorted.len(), num, den) * den <= sorted.len() * num < (rank(sorted.len(), num, den)
            + 1) * den,
        forall|i: int|
            0 <= i < rank(sorted.len(), num, den) ==> sorted[i] <= quantile(sorted, num, den),
        forall|i: int|
            rank(sorted.len(), num, den) <= i < sorted.len() ==> sorted[i] >= quantile(
                sorted,
                num,
                den,
            ),
{
    let n = sorted.len();
    assert(0 <= n * num / den < n && (n * num / den) * den <= n * num < (n * num / den + 1) * den)
        by (nonlinear_arith)
        requires
            n > 0,
            0 <= num < den,
    ;
}

/// A report lists its percentiles in ascending order, up to the maximum.
pub proof fn law_percentiles_ascend(report: LatencyReport, samples: Seq<u64>)
    requires
        samples.len() > 0,
        report.describes(samples),
    ensures
        report.p50 <= report.p99 <= report.p999 <= report.max,
{
    lemma_in_order(samples);
}

/// Every figure of a report is one of its samples, and no sample exceeds the
/// maximum.
pub proof fn law_report_shows_samples(report: LatencyReport, samples: Seq<u64>)
    requires
        samples.len() > 0,
        report.describes(samples),
    ensures
        samples.contains(report.p50),
        samples.contains(report.p99),
        samples.contains(report.p999),
        samples.contains(report.max),
        forall|i: int| 0 <= i < samples.len() ==> samples[i] <= report.max,
{
    lemma_in_order(samples);
    let sorted = in_order(samples);
    let n = samples.len();
    lemma_same_members(samples, sorted, rank(n, 50, 100));
    lemma_same_members(samples, sorted, rank(n, 99, 100));
    lemma_same_members(samples, sorted, rank(n, 999, 1000));
    lemma_same_members(samples, sorted, n - 1);
    lemma_in_order_bounds(samples);
}

/// Samples that arrive in another order give the same report.
pub proof fn law_report_ignores_arrival_order(a: Seq<u64>, b: Seq<u64>, report: LatencyReport)
    requires
        a.to_multiset() == b.to_multiset(),
        report.describes(a),
    ensures
        report.describes(b),
{
    lemma_in_order_same(a, b);
    a.to_multiset_ensures();
    b.to_multiset_ensures();
}

/// A member of a sequence is a member of any rearrangement of it.
proof fn lemma_same_members(a: Seq<u64>, b: Seq<u64>, i: int)
    requires
        a.to_multiset() == b.to_multiset(),
        0 <= i < b.len(),
    ensures
        a.contains(b[i]),
{
    a.to_multiset_ensures();
    b.to_multiset_ensures();
    assert(b.contains(b[i]));
    assert(b.to_multiset().count(b[i]) > 0);
}

/// Nanoseconds between two timestamps; none where the second is earlier.
pub open spec fn nanos_between(from_ns: u64, to_ns: u64) -> nat {
    if from_ns <= to_ns {
        (to_ns - from_ns) as nat
    } else {
        0
    }
}

/// Position `k` is the share `num / den` of `n` samples, rounded down.
pub open spec fn at_share(k: int, n: nat, num: nat, den: nat) -> bool {
    0 <= k && k * den <= n * num < (k + 1) * den
}

/// The span reaches from the first
/// timestamp to the second, and is empty where the second is earlier.
pub proof fn law_span_reaches_the_later_timestamp(from_ns: u64, to_ns: u64)
    ensures
        from_ns <= to_ns ==> from_ns + span(from_ns, to_ns) == to_ns,
        from_ns > to_ns ==> span(from_ns, to_ns) == 0,
{
}

/// The latencies of an order are the times between its own timestamps.
pub proof fn law_latencies_are_times_between(order: OrderSignal, submitted_ns: u64)
    ensures
        ({
            let l = OrderLatencies::spec_of(order, submitted_ns);
            &&& l.decision_ns == nanos_between(order.tick_ns, order.signal_ns)
            &&& l.submission_ns == nanos_between(order.signal_ns, submitted_ns)
            &&& l.e2e_ns == nanos_between(order.tick_ns, submitted_ns)
        }),
{
}

/// Sorting arranges the same samples so that none is smaller than one before it,
/// and there is only one such arrangement.
pub proof fn law_sorting_arranges_the_samples(samples: Seq<u64>, sorted: Seq<u64>)
    ensures
        in_order(samples).to_multiset() == samples.to_multiset(),
        forall|i: int, j: int|
            0 <= i <= j < in_order(samples).len() ==> in_order(samples)[i] <= in_order(samples)[j],
        sorted.to_multiset() == samples.to_multiset() && (forall|i: int, j: int|
            0 <= i <= j < sorted.len() ==> sorted[i] <= sorted[j]) ==> sorted == in_order(samples),
{
    lemma_in_order(samples);
    if sorted.to_multiset() == samples.to_multiset() && (forall|i: int, j: int|
        0 <= i <= j < sorted.len() ==> sorted[i] <= sorted[j]) {
        lemma_in_order_unique(samples, sorted);
    }
}

/// A quantile below 1 is the sample at its share of the samples.
pub proof fn law_quantile_is_the_sample_at_its_share(sorted: Seq<u64>, num: nat, den: nat)
    requires
        sorted.len() > 0,
        num < den,
    ensures
        exists|k: int| #[trigger] at_share(k, sorted.len(), num, den),
        forall|k: int| #[trigger]
            at_share(k, sorted.len(), num, den) ==> k < sorted.len() && quantile(sorted, num, den)
                == sorted[k],
{
    let n = sorted.len();
    let whole = (n * num) as int;
    let d = den as int;
    let at = whole / d;
    lemma_fundamental_div_mod(whole, d);
    assert(0 <= at < n && at * d <= whole < (at + 1) * d) by (nonlinear_arith)
        requires
            whole == n * num,
            d == den,
            n > 0,
            0 <= num < den,
            at == whole / d,
    ;
    assert(at_share(at, n, num, den));
    assert forall|k: int| #[trigger] at_share(k, n, num, den) implies k == at by {
        assert(k == at) by (nonlinear_arith)
            requires
                d > 0,
                k * d <= whole < (k + 1) * d,
                at * d <= whole < (at + 1) * d,
        ;
    }
}

/// A quantile of 1 or more is the last sample.
pub proof fn law_whole_quantile_is_the_last_sample(sorted: Seq<u64>, num: nat, den: nat)
    requires
        sorted.len() > 0,
        0 < den <= num,
    ensures
        quantile(sorted, num, den) == sorted[sorted.len() - 1],
{
    let n = sorted.len();
    assert(n * num / den >= n) by (nonlinear_arith)
        requires
            n > 0,
            0 < den <= num,
    ;
}

/// The figures of a report are those samples, in ascending order, that stand at the
/// share that each figure is named after, and the last one.
pub proof fn law_report_figures_stand_at_their_shares(
    report: LatencyReport,
    samples: Seq<u64>,
    sorted: Seq<u64>,
)
    requires
        report.describes(samples),
        samples.len() > 0,
        sorted.to_multiset() == samples.to_multiset(),
        forall|i: int, j: int| 0 <= i <= j < sorted.len() ==> sorted[i] <= sorted[j],
    ensures
        report.samples == samples.len() == sorted.len(),
        forall|k: int| #[trigger] at_share(k, samples.len(), 50, 100) ==> report.p50 == sorted[k],
        forall|k: int| #[trigger] at_share(k, samples.len(), 99, 100) ==> report.p99 == sorted[k],
        forall|k: int| #[trigger]
            at_share(k, samples.len(), 999, 1000) ==> report.p999 == sorted[k],
        report.max == sorted[samples.len() - 1],
{
    lemma_in_order(samples);
    lemma_in_order_unique(samples, sorted);
    law_quantile_is_the_sample_at_its_share(sorted, 50, 100);
    law_quantile_is_the_sample_at_its_share(sorted, 99, 100);
    law_quantile_is_the_sample_at_its_share(sorted, 999, 1000);
}

/// A report is owed from five seconds on after the window was opened, provided that
/// there is a sample.
pub proof fn law_report_is_owed_after_five_seconds(window: LatencyWindow, now_ns: u64)
    ensures
        window.due(now_ns) == (window.samples@.len() > 0 && now_ns >= window.opened_ns
            + 5_000_000_000),
        window.due(now_ns) == window_due(window.samples@, window.opened_ns, now_ns),
{
}

} // verus!
