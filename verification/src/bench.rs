//! Ping-pong latency benchmark.
//!
//! The ping side sends a timestamped tick, waits for its echo and takes half of
//! the round trip as the one-way latency.

use vstd::prelude::*;
use vstd::seq_lib::{commutative_foldl, lemma_fold_left_permutation};

use crate::latency::{quantile_of, sort_samples, span_ns};
use crate::market::MarketTick;
use crate::price::Price;
use crate::price_text::nearest_of;
use crate::text::{push_decimal, push_right_aligned};

verus! {

/// Bit pattern of the benchmark's bid, 30000.
pub const PING_BID_BITS: u64 = 0x40dd_4c00_0000_0000;

/// Bit pattern of the benchmark's ask, 30001.
pub const PING_ASK_BITS: u64 = 0x40dd_4c40_0000_0000;

/// Round trips between two progress messages.
pub const PROGRESS_INTERVAL: u64 = 100_000;

/// Width of the figures in the statistics.
pub const FIGURE_WIDTH: usize = 8;

/// The ping side of a run.
#[derive(Debug)]
pub struct PingRun {
    /// Round trips to measure.
    pub count: u64,
    /// Round trips before the measured ones.
    pub warmup: u64,
    /// Round trips so far, and the sequence number of the next ping.
    pub completed: u64,
    /// One-way latencies of the measured round trips.
    pub latencies: Vec<u64>,
}

impl PingRun {
    /// One latency for each round trip since the warmup.
    pub open spec fn valid(self) -> bool {
        &&& self.count + self.warmup <= u64::MAX
        &&& self.completed <= self.count + self.warmup
        &&& self.latencies@.len() == if self.completed > self.warmup {
            self.completed - self.warmup
        } else {
            0
        }
    }

    /// A run that has not started.
    pub fn new(count: u64, warmup: u64) -> (r: PingRun)
        requires
            count + warmup <= u64::MAX,
        ensures
            r.valid(),
            r.count == count,
            r.warmup == warmup,
            r.completed == 0,
            r.latencies@.len() == 0,
    {
        PingRun { count, warmup, completed: 0, latencies: Vec::new() }
    }

    /// Round trips of the whole run.
    pub fn total(&self) -> (r: u64)
        requires
            self.valid(),
        ensures
            r == self.count + self.warmup,
    {
        self.count + self.warmup
    }

    /// True until all round trips are done.
    pub fn is_running(&self) -> (r: bool)
        requires
            self.valid(),
        ensures
            r == (self.completed < self.count + self.warmup),
    {
        self.completed < self.count + self.warmup
    }

    /// The next ping.
    pub fn ping(&self, timestamp_ns: u64) -> (r: MarketTick)
        ensures
            forall|i: int| 0 <= i < 8 ==> r.symbol@[i] == 0,
            r.bid.bits == PING_BID_BITS,
            r.ask.bits == PING_ASK_BITS,
            r.timestamp_ns == timestamp_ns,
            r.seq == self.completed,
    {
        let mut tick = MarketTick::zeroed();
        tick.bid = Price { bits: PING_BID_BITS };
        tick.ask = Price { bits: PING_ASK_BITS };
        tick.timestamp_ns = timestamp_ns;
        tick.seq = self.completed;
        tick
    }

    /// Takes an echo that came at `now_ns`.  True where it answers the last
    /// ping; any other echo is ignored.
    pub fn on_pong(&mut self, pong: &MarketTick, now_ns: u64) -> (r: bool)
        requires
            old(self).valid(),
            old(self).completed < old(self).count + old(self).warmup,
        ensures
            final(self).valid(),
            final(self).count == old(self).count,
            final(self).warmup == old(self).warmup,
            r == (pong.seq == old(self).completed),
            final(self).completed == old(self).completed + if r {
                1int
            } else {
                0
            },
            final(self).latencies@ == (if r && old(self).completed >= old(self).warmup {
                old(self).latencies@.push(crate::latency::span(pong.timestamp_ns, now_ns) / 2)
            } else {
                old(self).latencies@
            }),
    {
        if pong.seq != self.completed {
            return false;
        }
        let rtt_ns: u64 = span_ns(pong.timestamp_ns, now_ns);
        let one_way_ns: u64 = rtt_ns / 2;
        if self.completed >= self.warmup {
            self.latencies.push(one_way_ns);
        }
        self.completed = self.completed + 1;
        true
    }

    /// The count of round trips, where it is one to report.
    pub fn progress(&self) -> (r: Option<u64>)
        ensures
            r == (if self.completed % PROGRESS_INTERVAL == 0 {
                Some(self.completed)
            } else {
                None
            }),
    {
        if self.completed % PROGRESS_INTERVAL == 0 {
            Some(self.completed)
        } else {
            None
        }
    }
}

/// A run that is over has measured exactly the round trips that it was to
/// measure, the warmup left out.
pub proof fn law_finished_run_is_complete(run: PingRun)
    requires
        run.valid(),
        run.completed == run.count + run.warmup,
    ensures
        run.latencies@.len() == run.count,
{
}

/// The sum of all samples.
pub open spec fn sum_of(samples: Seq<u64>) -> nat
    decreases samples.len(),
{
    if samples.len() == 0 {
        0
    } else {
        sum_of(samples.drop_last()) + samples.last() as nat
    }
}

/// Figures of a benchmark run.
#[derive(Clone, Copy, Debug, PartialEq, Eq, Structural)]
pub struct BenchStats {
    pub samples: usize,
    /// Sum of the latencies.
    pub sum: u128,
    pub p50: u64,
    pub p95: u64,
    pub p99: u64,
    pub p999: u64,
    pub max: u64,
}

impl BenchStats {
    /// The figures are those of these latencies.
    pub open spec fn describes(self, latencies: Seq<u64>) -> bool {
        let sorted = crate::latency::in_order(latencies);
        &&& self.samples == latencies.len()
        &&& self.sum == sum_of(latencies)
        &&& self.p50 == crate::latency::quantile(sorted, 50, 100)
        &&& self.p95 == crate::latency::quantile(sorted, 95, 100)
        &&& self.p99 == crate::latency::quantile(sorted, 99, 100)
        &&& self.p999 == crate::latency::quantile(sorted, 999, 1000)
        &&& self.max == sorted.last()
    }
}

/// Adds up samples.
fn sum_samples(samples: &[u64]) -> (r: u128)
    ensures
        r == sum_of(samples@),
{
    let mut sum: u128 = 0;
    let mut i: usize = 0;
    while i < samples.len()
        invariant
            i <= samples@.len(),
            sum == sum_of(samples@.take(i as int)),
        decreases samples@.len() - i,
    {
        let ghost next = samples@.take(i + 1);
        proof {
            assert(next.drop_last() =~= samples@.take(i as int));
            lemma_sum_at_most(next, u64::MAX);
            assert(next.len() * u64::MAX <= u128::MAX) by (nonlinear_arith)
                requires
                    next.len() <= 0xffff_ffff_ffff_ffff,
            ;
        }
        sum = sum + samples[i] as u128;
        i = i + 1;
    }
    assert(samples@.take(i as int) =~= samples@);
    sum
}

/// The figures of measured latencies; none where nothing was measured.
pub fn bench_stats(latencies: Vec<u64>) -> (r: Option<BenchStats>)
    ensures
        r is Some == (latencies@.len() > 0),
        r matches Some(stats) ==> stats.describes(latencies@),
{
    if latencies.len() == 0 {
        return None;
    }
    let sum: u128 = sum_samples(latencies.as_slice());
    let mut sorted_latencies = latencies;
    sort_samples(&mut sorted_latencies);
    proof {
        crate::latency::lemma_in_order(latencies@);
    }
    let sorted = sorted_latencies.as_slice();
    let n: usize = sorted.len();
    Some(
        BenchStats {
            samples: n,
            sum,
            p50: quantile_of(sorted, 50, 100),
            p95: quantile_of(sorted, 95, 100),
            p99: quantile_of(sorted, 99, 100),
            p999: quantile_of(sorted, 999, 1000),
            max: sorted[n - 1],
        },
    )
}

/// Samples that are all at most `most` sum to at most `most` for each of them.
proof fn lemma_sum_at_most(samples: Seq<u64>, most: u64)
    requires
        forall|i: int| 0 <= i < samples.len() ==> samples[i] <= most,
    ensures
        sum_of(samples) <= samples.len() * most,
    decreases samples.len(),
{
    if samples.len() > 0 {
        lemma_sum_at_most(samples.drop_last(), most);
        let n = samples.len();
        assert((n - 1) * most + most == n * most) by (nonlinear_arith);
    }
}

/// The figures of a run ascend up to the maximum, which the mean does not exceed
/// either.
pub proof fn law_figures_ascend(stats: BenchStats, latencies: Seq<u64>)
    requires
        latencies.len() > 0,
        stats.describes(latencies),
    ensures
        stats.p50 <= stats.p95 <= stats.p99 <= stats.p999 <= stats.max,
        stats.sum <= stats.samples * stats.max,
{
    crate::latency::lemma_in_order(latencies);
    crate::latency::lemma_in_order_bounds(latencies);
    lemma_sum_at_most(latencies, stats.max);
}

/// One figure, right-aligned.
pub open spec fn figure_text(text: Seq<char>) -> Seq<char> {
    crate::text::right_aligned(text, FIGURE_WIDTH as nat) + " ns\n"@
}

/// The mean in whole nanoseconds: the nearest whole number, of two equally near
/// the even one.
pub open spec fn mean_of(sum: nat, samples: nat) -> Seq<char> {
    crate::text::decimal(crate::price_text::nearest(sum, samples))
}

/// One quantile, right-aligned.
pub open spec fn quantile_figure(sorted: Seq<u64>, num: nat, den: nat) -> Seq<char> {
    figure_text(crate::text::decimal(crate::latency::quantile(sorted, num, den) as nat))
}

/// The printed statistics of latencies; the empty text where there are none.
pub open spec fn stats_text(label: Seq<char>, latencies: Seq<u64>) -> Seq<char> {
    let sorted = crate::latency::in_order(latencies);
    if latencies.len() == 0 {
        seq![]
    } else {
        "\n=== "@ + label + " latency ("@ + crate::text::decimal(latencies.len())
            + " samples) ===\n"@ + "  mean  : "@ + figure_text(
            mean_of(sum_of(latencies), latencies.len()),
        ) + "  p50   : "@ + quantile_figure(sorted, 50, 100) + "  p95   : "@ + quantile_figure(
            sorted,
            95,
            100,
        ) + "  p99   : "@ + quantile_figure(sorted, 99, 100) + "  p99.9 : "@ + quantile_figure(
            sorted,
            999,
            1000,
        ) + "  max   : "@ + figure_text(crate::text::decimal(sorted.last() as nat))
    }
}

/// The mean latency in whole nanoseconds.
pub fn mean_text(stats: &BenchStats) -> (r: String)
    requires
        stats.samples > 0,
        stats.sum <= stats.samples * u64::MAX,
    ensures
        r@ == mean_of(stats.sum as nat, stats.samples as nat),
{
    proof {
        crate::price_text::lemma_nearest_at_most(
            stats.sum as nat,
            stats.samples as nat,
            u64::MAX as nat,
        );
        let n = stats.samples;
        assert(n * u64::MAX < u128::MAX) by (nonlinear_arith)
            requires
                n <= 0xffff_ffff_ffff_ffff,
        ;
    }
    let mean: u128 = nearest_of(stats.sum, stats.samples as u128);
    let mut text = String::new();
    push_decimal(&mut text, mean as u64);
    assert(text@ =~= mean_of(stats.sum as nat, stats.samples as nat));
    text
}

/// Appends one line of the statistics.
fn push_figure(buf: &mut String, name: &str, figure: &str)
    ensures
        final(buf)@ == old(buf)@ + name@ + figure_text(figure@),
{
    buf.append(name);
    push_right_aligned(buf, figure, FIGURE_WIDTH);
    buf.append(" ns\n");
    assert(buf@ =~= old(buf)@ + name@ + figure_text(figure@));
}

/// Appends one line of the statistics for a whole number.
fn push_number(buf: &mut String, name: &str, figure: u64)
    ensures
        final(buf)@ == old(buf)@ + name@ + figure_text(crate::text::decimal(figure as nat)),
{
    let mut text = String::new();
    push_decimal(&mut text, figure);
    assert(text@ =~= crate::text::decimal(figure as nat));
    push_figure(buf, name, text.as_str());
}

/// The statistics of a run under a label; the empty text where nothing was
/// measured.
pub fn print_stats(label: &str, latencies: Vec<u64>) -> (r: String)
    ensures
        r@ == stats_text(label@, latencies@),
{
    let ghost measured = latencies@;
    let stats = match bench_stats(latencies) {
        Some(stats) => stats,
        None => {
            let nothing = String::new();
            assert(nothing@ =~= seq![]);
            return nothing;
        },
    };
    proof {
        lemma_sum_at_most(measured, u64::MAX);
    }
    let mean = mean_text(&stats);
    let mut buf = "\n=== ".to_owned();
    buf.append(label);
    buf.append(" latency (");
    push_decimal(&mut buf, stats.samples as u64);
    buf.append(" samples) ===\n");
    push_figure(&mut buf, "  mean  : ", mean.as_str());
    push_number(&mut buf, "  p50   : ", stats.p50);
    push_number(&mut buf, "  p95   : ", stats.p95);
    push_number(&mut buf, "  p99   : ", stats.p99);
    push_number(&mut buf, "  p99.9 : ", stats.p999);
    push_number(&mut buf, "  max   : ", stats.max);
    buf
}

/// The sum of samples does not depend on their order.
proof fn lemma_sum_ignores_order(a: Seq<u64>, b: Seq<u64>)
    requires
        a.to_multiset() == b.to_multiset(),
    ensures
        sum_of(a) == sum_of(b),
{
    let add_sample = |sum: nat, sample: u64| sum + sample as nat;
    lemma_sum_is_fold(a);
    lemma_sum_is_fold(b);
    assert(commutative_foldl(add_sample));
    lemma_fold_left_permutation(a, b, add_sample, 0);
}

proof fn lemma_sum_is_fold(samples: Seq<u64>)
    ensures
        sum_of(samples) == samples.fold_left(0nat, |sum: nat, sample: u64| sum + sample as nat),
    decreases samples.len(),
{
    if samples.len() > 0 {
        lemma_sum_is_fold(samples.drop_last());
    }
}

/// Latencies that were measured in another order print the same text, and no
/// latencies print nothing.
pub proof fn law_printed_stats_ignore_order(label: Seq<char>, a: Seq<u64>, b: Seq<u64>)
    requires
        a.to_multiset() == b.to_multiset(),
    ensures
        stats_text(label, a) == stats_text(label, b),
        a.len() == 0 ==> stats_text(label, a).len() == 0 && stats_text(label, b).len() == 0,
{
    crate::latency::lemma_in_order_same(a, b);
    lemma_sum_ignores_order(a, b);
    a.to_multiset_ensures();
    b.to_multiset_ensures();
}

/// A sum grows by each sample that is added, from 0 on.
pub proof fn law_sum_adds_each_sample(samples: Seq<u64>, sample: u64)
    ensures
        sum_of(Seq::<u64>::empty()) == 0,
        sum_of(samples.push(sample)) == sum_of(samples) + sample,
{
    assert(samples.push(sample).drop_last() =~= samples);
}

/// The figures of a run are those latencies, in ascending order, that stand at the
/// share that each figure is named after, and the last one.
pub proof fn law_bench_figures_stand_at_their_shares(
    stats: BenchStats,
    latencies: Seq<u64>,
    sorted: Seq<u64>,
)
    requires
        stats.describes(latencies),
        latencies.len() > 0,
        sorted.to_multiset() == latencies.to_multiset(),
        forall|i: int, j: int| 0 <= i <= j < sorted.len() ==> sorted[i] <= sorted[j],
    ensures
        stats.samples == latencies.len(),
        stats.sum == sum_of(latencies),
        forall|k: int| #[trigger]
            crate::latency::at_share(k, sorted.len(), 50, 100) ==> stats.p50 == sorted[k],
        forall|k: int| #[trigger]
            crate::latency::at_share(k, sorted.len(), 95, 100) ==> stats.p95 == sorted[k],
        forall|k: int| #[trigger]
            crate::latency::at_share(k, sorted.len(), 99, 100) ==> stats.p99 == sorted[k],
        forall|k: int| #[trigger]
            crate::latency::at_share(k, sorted.len(), 999, 1000) ==> stats.p999 == sorted[k],
        stats.max == sorted[sorted.len() - 1],
{
    crate::latency::law_sorting_arranges_the_samples(latencies, sorted);
    crate::latency::lemma_in_order(latencies);
    crate::latency::law_quantile_is_the_sample_at_its_share(sorted, 50, 100);
    crate::latency::law_quantile_is_the_sample_at_its_share(sorted, 95, 100);
    crate::latency::law_quantile_is_the_sample_at_its_share(sorted, 99, 100);
    crate::latency::law_quantile_is_the_sample_at_its_share(sorted, 999, 1000);
}

/// The row shows a number under a name: spaces in front bring the numeral to eight
/// characters.
pub open spec fn shows_figure(row: Seq<char>, name: Seq<char>, n: nat) -> bool {
    exists|pad: Seq<char>, digits: Seq<char>|
        {
            &&& row == name + #[trigger] (pad + digits) + " ns"@
            &&& forall|i: int| 0 <= i < pad.len() ==> pad[i] == ' '
            &&& crate::text::reads_as(digits, n)
            &&& pad.len() + digits.len() == if digits.len() < 8 { 8 } else { digits.len() }
        }
}

/// `mean` is the mean of samples with this sum, rounded to the nearest whole number
/// and to the even one of two that are equally near.
pub open spec fn rounded_mean(mean: nat, sum: nat, samples: nat) -> bool {
    let off = mean * samples - sum;
    &&& -samples <= 2 * off <= samples
    &&& 2 * off == samples || 2 * off == -samples ==> mean % 2 == 0
}

/// The text of the mean reads back as the rounded mean.
pub proof fn law_mean_text_is_the_rounded_mean(sum: nat, samples: nat)
    requires
        samples > 0,
    ensures
        exists|mean: nat| #[trigger]
            rounded_mean(mean, sum, samples) && crate::text::reads_as(mean_of(sum, samples), mean),
{
    let mean = crate::price_text::nearest(sum, samples);
    crate::price_text::lemma_nearest(sum, samples);
    crate::text::law_decimal_reads_back(mean);
    assert(rounded_mean(mean, sum, samples));
}

/// A row of the statistics: what it shows, and that it ends with the line break.
proof fn row_added(
    front: Seq<char>,
    rows: Seq<char>,
    text: Seq<char>,
    name: Seq<char>,
    n: nat,
) -> (r: Seq<char>)
    requires
        text == front + rows,
        crate::reading::lacks(name, '\n'),
        crate::reading::split(rows, '\n').len() > 0,
        crate::reading::split(rows, '\n').last().len() == 0,
    ensures
        text + name + figure_text(crate::text::decimal(n)) == front + r,
        crate::reading::split(r, '\n').len() == crate::reading::split(rows, '\n').len() + 1,
        crate::reading::split(r, '\n').last().len() == 0,
        ({
            let before = crate::reading::split(rows, '\n');
            let after = crate::reading::split(r, '\n');
            &&& shows_figure(after[after.len() - 2], name, n)
            &&& forall|i: int| 0 <= i < before.len() - 1 ==> #[trigger] after[i] == before[i]
        }),
{
    reveal_strlit(" ns\n");
    reveal_strlit(" ns");
    let digits = crate::text::decimal(n);
    crate::text::law_decimal_reads_back(n);
    crate::reading::lemma_numeral_plain(digits);
    let aligned = crate::text::right_aligned(digits, 8);
    crate::text::law_alignment_adds_spaces_in_front(digits, 8);
    let pad = Seq::new((aligned.len() - digits.len()) as nat, |i: int| ' ');
    assert(aligned =~= pad + digits);
    crate::reading::lemma_lacks_joined(pad, digits, '\n');
    let row = name + (pad + digits) + " ns"@;
    crate::reading::lemma_lacks_joined(name, pad + digits, '\n');
    crate::reading::lemma_lacks_joined(name + (pad + digits), " ns"@, '\n');
    let nothing = Seq::<char>::empty();
    let r = rows + (row.push('\n') + nothing);
    crate::reading::lemma_split_cut(rows, row, nothing, '\n');
    let before = crate::reading::split(rows, '\n');
    assert(before.last() + row =~= row);
    assert(text + name + figure_text(digits) =~= front + r);
    assert(shows_figure(row, name, n));
    r
}

/// What is printed.  A heading gives the label and the number of samples; then come
/// the mean, rounded to whole nanoseconds, the latencies at 50, 95, 99 and 99.9
/// percent in ascending order, and the largest one, each in a row of its own.
#[verifier::spinoff_prover]
pub proof fn law_printed_stats_read_back(
    label: Seq<char>,
    latencies: Seq<u64>,
    sorted: Seq<u64>,
)
    requires
        latencies.len() > 0,
        sorted.to_multiset() == latencies.to_multiset(),
        forall|i: int, j: int| 0 <= i <= j < sorted.len() ==> sorted[i] <= sorted[j],
    ensures
        exists|count: Seq<char>, text: Seq<char>, mean: nat|
            {
                let rows = crate::reading::split(text, '\n');
                let n = sorted.len();
                &&& stats_text(label, latencies) == "\n=== "@ + label + " latency ("@ + count
                    + " samples) ===\n"@ + text
                &&& #[trigger] crate::text::reads_as(count, latencies.len())
                &&& #[trigger] rounded_mean(mean, sum_of(latencies), latencies.len())
                &&& #[trigger] crate::reading::split(text, '\n').len() == 7
                &&& rows[6].len() == 0
                &&& shows_figure(rows[0], "  mean  : "@, mean)
                &&& forall|k: int| #[trigger]
                    crate::latency::at_share(k, n, 50, 100) ==> shows_figure(
                        rows[1],
                        "  p50   : "@,
                        sorted[k] as nat,
                    )
                &&& forall|k: int| #[trigger]
                    crate::latency::at_share(k, n, 95, 100) ==> shows_figure(
                        rows[2],
                        "  p95   : "@,
                        sorted[k] as nat,
                    )
                &&& forall|k: int| #[trigger]
                    crate::latency::at_share(k, n, 99, 100) ==> shows_figure(
                        rows[3],
                        "  p99   : "@,
                        sorted[k] as nat,
                    )
                &&& forall|k: int| #[trigger]
                    crate::latency::at_share(k, n, 999, 1000) ==> shows_figure(
                        rows[4],
                        "  p99.9 : "@,
                        sorted[k] as nat,
                    )
                &&& shows_figure(rows[5], "  max   : "@, sorted[n - 1] as nat)
            },
{
    reveal_strlit("  mean  : ");
    reveal_strlit("  p50   : ");
    reveal_strlit("  p95   : ");
    reveal_strlit("  p99   : ");
    reveal_strlit("  p99.9 : ");
    reveal_strlit("  max   : ");
    crate::latency::law_sorting_arranges_the_samples(latencies, sorted);
    crate::latency::lemma_in_order(latencies);
    let n = sorted.len();
    let count = crate::text::decimal(latencies.len());
    crate::text::law_decimal_reads_back(latencies.len());
    let mean = crate::price_text::nearest(sum_of(latencies), latencies.len());
    crate::price_text::lemma_nearest(sum_of(latencies), latencies.len());
    assert(rounded_mean(mean, sum_of(latencies), latencies.len()));
    let p50 = crate::latency::quantile(sorted, 50, 100) as nat;
    let p95 = crate::latency::quantile(sorted, 95, 100) as nat;
    let p99 = crate::latency::quantile(sorted, 99, 100) as nat;
    let p999 = crate::latency::quantile(sorted, 999, 1000) as nat;
    crate::latency::law_quantile_is_the_sample_at_its_share(sorted, 50, 100);
    crate::latency::law_quantile_is_the_sample_at_its_share(sorted, 95, 100);
    crate::latency::law_quantile_is_the_sample_at_its_share(sorted, 99, 100);
    crate::latency::law_quantile_is_the_sample_at_its_share(sorted, 999, 1000);
    let front = "\n=== "@ + label + " latency ("@ + count + " samples) ===\n"@;
    let text = front;
    let rows = Seq::<char>::empty();
    assert(front + rows =~= front);
    let more = row_added(front, rows, text, "  mean  : "@, mean);
    let text = text + "  mean  : "@ + figure_text(crate::text::decimal(mean));
    let rows = more;
    let more = row_added(front, rows, text, "  p50   : "@, p50);
    let text = text + "  p50   : "@ + figure_text(crate::text::decimal(p50));
    let rows = more;
    let more = row_added(front, rows, text, "  p95   : "@, p95);
    let text = text + "  p95   : "@ + figure_text(crate::text::decimal(p95));
    let rows = more;
    let more = row_added(front, rows, text, "  p99   : "@, p99);
    let text = text + "  p99   : "@ + figure_text(crate::text::decimal(p99));
    let rows = more;
    let more = row_added(front, rows, text, "  p99.9 : "@, p999);
    let text = text + "  p99.9 : "@ + figure_text(crate::text::decimal(p999));
    let rows = more;
    let more = row_added(front, rows, text, "  max   : "@, sorted.last() as nat);
    let text = text + "  max   : "@ + figure_text(crate::text::decimal(sorted.last() as nat));
    assert(stats_text(label, latencies) == text);
    assert(crate::reading::split(more, '\n').len() == 7);
}

} // verus!
