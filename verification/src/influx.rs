//! InfluxDB v2 writes of operational metrics.
//!
//! Requests go to the `/api/v2/write` endpoint and carry the InfluxDB Line
//! Protocol.  Failures are logged and otherwise ignored: InfluxDB is
//! non-critical for the trading pipeline; QuestDB holds the authoritative audit
//! trail.

use vstd::prelude::*;

use crate::latency::quantile_of;
use crate::text::{push_decimal, trim_end_slashes};

verus! {

/// What an InfluxDB client sends with every request.
#[derive(Debug, PartialEq, Eq)]
pub struct InfluxClient {
    /// Address that requests are posted to.
    pub write_url: String,
    /// Value of the `Authorization` header.
    pub auth: String,
}

/// A write to be posted.
#[derive(Debug, PartialEq, Eq)]
pub struct InfluxRequest {
    pub url: String,
    /// Value of the `Authorization` header.
    pub authorization: String,
    /// Value of the `Content-Type` header.
    pub content_type: String,
    pub body: String,
}

/// How a write went.
#[derive(Clone, Copy, Debug, PartialEq, Eq, Structural)]
pub enum WriteOutcome {
    /// The server took the lines.
    Accepted,
    /// The server answered with another status.
    Rejected { status: u16 },
    /// No answer came.
    Failed,
}

/// The address that writes for a bucket are posted to.
pub open spec fn write_url_of(
    base_url: Seq<char>,
    org: Seq<char>,
    bucket: Seq<char>,
) -> Seq<char> {
    crate::text::without_end_slashes(base_url) + "/api/v2/write?org="@ + org + "&bucket="@ + bucket
        + "&precision=ns"@
}

impl InfluxClient {
    /// A client for one bucket of an organisation.
    pub fn new(base_url: &str, org: &str, bucket: &str, token: &str) -> (r: InfluxClient)
        ensures
            r.write_url@ == write_url_of(base_url@, org@, bucket@),
            r.auth@ == "Token "@ + token@,
    {
        let mut write_url = trim_end_slashes(base_url).to_owned();
        write_url.append("/api/v2/write?org=");
        write_url.append(org);
        write_url.append("&bucket=");
        write_url.append(bucket);
        write_url.append("&precision=ns");
        let mut auth = "Token ".to_owned();
        auth.append(token);
        InfluxClient { write_url, auth }
    }

    /// The request that posts one or more ILP lines.
    pub fn write(&self, lines: String) -> (r: InfluxRequest)
        ensures
            r.url@ == self.write_url@,
            r.authorization@ == self.auth@,
            r.content_type@ == "text/plain; charset=utf-8"@,
            r.body@ == lines@,
    {
        InfluxRequest {
            url: self.write_url.clone(),
            authorization: self.auth.clone(),
            content_type: "text/plain; charset=utf-8".to_owned(),
            body: lines,
        }
    }
}

/// Judges the answer to a write by its status code, if there was an answer.
pub fn write_outcome(status: Option<u16>) -> (r: WriteOutcome)
    ensures
        r == (match status {
            Some(code) => if 200 <= code < 300 {
                WriteOutcome::Accepted
            } else {
                WriteOutcome::Rejected { status: code }
            },
            None => WriteOutcome::Failed,
        }),
{
    match status {
        Some(code) => {
            if 200 <= code && code < 300 {
                WriteOutcome::Accepted
            } else {
                WriteOutcome::Rejected { status: code }
            }
        },
        None => WriteOutcome::Failed,
    }
}

/// The `execution_latency` line for sorted latencies.
pub open spec fn execution_latency_line(
    symbol: Seq<char>,
    e2e: Seq<u64>,
    decision: Seq<u64>,
    count: u64,
    ts: u64,
) -> Seq<char> {
    "execution_latency,symbol="@ + symbol + " e2e_p50="@ + quantile_text(e2e, 50, 100)
        + "i,e2e_p99="@ + quantile_text(e2e, 99, 100) + "i,e2e_p999="@ + quantile_text(
        e2e,
        999,
        1000,
    ) + "i,decision_p50="@ + quantile_text(decision, 50, 100) + "i,decision_p99="@ + quantile_text(
        decision,
        99,
        100,
    ) + "i,count="@ + crate::text::decimal(count as nat) + "i "@ + crate::text::decimal(ts as nat)
        + "\n"@
}

/// A quantile in decimal.
pub open spec fn quantile_text(sorted: Seq<u64>, num: nat, den: nat) -> Seq<char> {
    crate::text::decimal(crate::latency::quantile(sorted, num, den) as nat)
}

/// The `throughput` line.
pub open spec fn throughput_line(symbol: Seq<char>, orders_total: u64, ts: u64) -> Seq<char> {
    "throughput,symbol="@ + symbol + " orders_total="@ + crate::text::decimal(orders_total as nat)
        + "i "@ + crate::text::decimal(ts as nat) + "\n"@
}

/// Build the `execution_latency` ILP measurement from sorted latency vecs; the
/// empty text where there are no latencies.
///
/// Both slices must be sorted ascending for the figures to be percentiles.
pub fn execution_latency_ilp(
    symbol: &str,
    e2e: &[u64],
    decision: &[u64],
    count: u64,
    ts: u64,
) -> (r: String)
    requires
        e2e@.len() > 0 ==> decision@.len() > 0,
    ensures
        r@ == (if e2e@.len() == 0 {
            seq![]
        } else {
            execution_latency_line(symbol@, e2e@, decision@, count, ts)
        }),
{
    if e2e.len() == 0 {
        let nothing = String::new();
        assert(nothing@ =~= seq![]);
        return nothing;
    }
    let mut line = "execution_latency,symbol=".to_owned();
    line.append(symbol);
    line.append(" e2e_p50=");
    push_decimal(&mut line, quantile_of(e2e, 50, 100));
    line.append("i,e2e_p99=");
    push_decimal(&mut line, quantile_of(e2e, 99, 100));
    line.append("i,e2e_p999=");
    push_decimal(&mut line, quantile_of(e2e, 999, 1000));
    line.append("i,decision_p50=");
    push_decimal(&mut line, quantile_of(decision, 50, 100));
    line.append("i,decision_p99=");
    push_decimal(&mut line, quantile_of(decision, 99, 100));
    line.append("i,count=");
    push_decimal(&mut line, count);
    line.append("i ");
    push_decimal(&mut line, ts);
    line.append("\n");
    assert(line@ == execution_latency_line(symbol@, e2e@, decision@, count, ts));
    line
}

/// Build the `throughput` ILP measurement for order totals.
pub fn throughput_ilp(symbol: &str, orders_total: u64, ts: u64) -> (r: String)
    ensures
        r@ == throughput_line(symbol@, orders_total, ts),
{
    let mut line = "throughput,symbol=".to_owned();
    line.append(symbol);
    line.append(" orders_total=");
    push_decimal(&mut line, orders_total);
    line.append("i ");
    push_decimal(&mut line, ts);
    line.append("\n");
    line
}

/// A slash at the end of the base address does not change where writes go.
pub proof fn law_end_slash_is_ignored(base_url: Seq<char>, org: Seq<char>, bucket: Seq<char>)
    ensures
        write_url_of(base_url.push('/'), org, bucket) == write_url_of(base_url, org, bucket),
{
    assert(base_url.push('/').drop_last() =~= base_url);
}

/// The line reads back as the metrics: its series names the instrument, its
/// percentile fields show the latency at the share that each of them is named
/// after, then come the count and the timestamp.
pub open spec fn shows_execution_latency(
    line: Seq<char>,
    symbol: Seq<char>,
    e2e: Seq<u64>,
    decision: Seq<u64>,
    count: u64,
    ts: u64,
) -> bool {
    let read = crate::reading::read_line(line);
    &&& line.len() > 0 && line.last() == '\n'
    &&& read.series == "execution_latency,symbol="@ + symbol
    &&& read.fields.len() == 6
    &&& forall|k: int| #[trigger]
        crate::latency::at_share(k, e2e.len(), 50, 100) ==> crate::reading::integer_field(
            read.fields[0],
            "e2e_p50="@,
            e2e[k] as nat,
        )
    &&& forall|k: int| #[trigger]
        crate::latency::at_share(k, e2e.len(), 99, 100) ==> crate::reading::integer_field(
            read.fields[1],
            "e2e_p99="@,
            e2e[k] as nat,
        )
    &&& forall|k: int| #[trigger]
        crate::latency::at_share(k, e2e.len(), 999, 1000) ==> crate::reading::integer_field(
            read.fields[2],
            "e2e_p999="@,
            e2e[k] as nat,
        )
    &&& forall|k: int| #[trigger]
        crate::latency::at_share(k, decision.len(), 50, 100) ==> crate::reading::integer_field(
            read.fields[3],
            "decision_p50="@,
            decision[k] as nat,
        )
    &&& forall|k: int| #[trigger]
        crate::latency::at_share(k, decision.len(), 99, 100) ==> crate::reading::integer_field(
            read.fields[4],
            "decision_p99="@,
            decision[k] as nat,
        )
    &&& crate::reading::integer_field(read.fields[5], "count="@, count as nat)
    &&& crate::text::reads_as(read.timestamp, ts as nat)
}

/// The line reads back as the order total.
pub open spec fn shows_throughput(
    line: Seq<char>,
    symbol: Seq<char>,
    orders_total: u64,
    ts: u64,
) -> bool {
    let read = crate::reading::read_line(line);
    &&& line.len() > 0 && line.last() == '\n'
    &&& read.series == "throughput,symbol="@ + symbol
    &&& read.fields.len() == 1
    &&& crate::reading::integer_field(read.fields[0], "orders_total="@, orders_total as nat)
    &&& crate::text::reads_as(read.timestamp, ts as nat)
}

/// The keys of the metric lines.
proof fn lemma_metric_keys()
    ensures
        " e2e_p50="@ == seq![' '] + "e2e_p50="@,
        crate::reading::plain("e2e_p50="@),
        "i,e2e_p99="@ == "i"@.push(',') + "e2e_p99="@,
        crate::reading::plain("e2e_p99="@),
        "i,e2e_p999="@ == "i"@.push(',') + "e2e_p999="@,
        crate::reading::plain("e2e_p999="@),
        "i,decision_p50="@ == "i"@.push(',') + "decision_p50="@,
        crate::reading::plain("decision_p50="@),
        "i,decision_p99="@ == "i"@.push(',') + "decision_p99="@,
        crate::reading::plain("decision_p99="@),
        "i,count="@ == "i"@.push(',') + "count="@,
        crate::reading::plain("count="@),
        " orders_total="@ == seq![' '] + "orders_total="@,
        crate::reading::plain("orders_total="@),
        crate::reading::plain("i"@),
{
    reveal_strlit("i");
    reveal_strlit(" e2e_p50=");
    reveal_strlit("e2e_p50=");
    assert(" e2e_p50="@ =~= seq![' '] + "e2e_p50="@);
    reveal_strlit("i,e2e_p99=");
    reveal_strlit("e2e_p99=");
    assert("i,e2e_p99="@ =~= "i"@.push(',') + "e2e_p99="@);
    reveal_strlit("i,e2e_p999=");
    reveal_strlit("e2e_p999=");
    assert("i,e2e_p999="@ =~= "i"@.push(',') + "e2e_p999="@);
    reveal_strlit("i,decision_p50=");
    reveal_strlit("decision_p50=");
    assert("i,decision_p50="@ =~= "i"@.push(',') + "decision_p50="@);
    reveal_strlit("i,decision_p99=");
    reveal_strlit("decision_p99=");
    assert("i,decision_p99="@ =~= "i"@.push(',') + "decision_p99="@);
    reveal_strlit("i,count=");
    reveal_strlit("count=");
    assert("i,count="@ =~= "i"@.push(',') + "count="@);
    reveal_strlit(" orders_total=");
    reveal_strlit("orders_total=");
    assert(" orders_total="@ =~= seq![' '] + "orders_total="@);
}

/// Each percentile field of the line, read back as a number, is the latency at the
/// share that its name states; the other parts read back as what was handed in.
#[verifier::spinoff_prover]
pub proof fn law_execution_latency_reads_back(
    symbol: Seq<char>,
    e2e: Seq<u64>,
    decision: Seq<u64>,
    count: u64,
    ts: u64,
)
    requires
        e2e.len() > 0,
        decision.len() > 0,
    ensures
        shows_execution_latency(
            execution_latency_line(symbol, e2e, decision, count, ts),
            symbol,
            e2e,
            decision,
            count,
            ts,
        ),
{
    lemma_metric_keys();
    crate::latency::law_quantile_is_the_sample_at_its_share(e2e, 50, 100);
    crate::reading::lemma_number(crate::latency::quantile(e2e, 50, 100) as nat);
    crate::latency::law_quantile_is_the_sample_at_its_share(e2e, 99, 100);
    crate::reading::lemma_number(crate::latency::quantile(e2e, 99, 100) as nat);
    crate::latency::law_quantile_is_the_sample_at_its_share(e2e, 999, 1000);
    crate::reading::lemma_number(crate::latency::quantile(e2e, 999, 1000) as nat);
    crate::latency::law_quantile_is_the_sample_at_its_share(decision, 50, 100);
    crate::reading::lemma_number(crate::latency::quantile(decision, 50, 100) as nat);
    crate::latency::law_quantile_is_the_sample_at_its_share(decision, 99, 100);
    crate::reading::lemma_number(crate::latency::quantile(decision, 99, 100) as nat);
    crate::reading::lemma_number(count as nat);
    crate::reading::lemma_number(ts as nat);
    let series = "execution_latency,symbol="@ + symbol;
    let fields = crate::reading::fields_opened(series, " e2e_p50="@, "e2e_p50="@);
    let line = series + " e2e_p50="@;
    let fields = crate::reading::value_added(series, fields, line, quantile_text(e2e, 50, 100));
    let line = line + quantile_text(e2e, 50, 100);
    let fields = crate::reading::field_opened(
        series,
        fields,
        line,
        "i,e2e_p99="@,
        "i"@,
        "e2e_p99="@,
    );
    let line = line + "i,e2e_p99="@;
    let fields = crate::reading::value_added(series, fields, line, quantile_text(e2e, 99, 100));
    let line = line + quantile_text(e2e, 99, 100);
    let fields = crate::reading::field_opened(
        series,
        fields,
        line,
        "i,e2e_p999="@,
        "i"@,
        "e2e_p999="@,
    );
    let line = line + "i,e2e_p999="@;
    let fields = crate::reading::value_added(series, fields, line, quantile_text(e2e, 999, 1000));
    let line = line + quantile_text(e2e, 999, 1000);
    let fields = crate::reading::field_opened(
        series,
        fields,
        line,
        "i,decision_p50="@,
        "i"@,
        "decision_p50="@,
    );
    let line = line + "i,decision_p50="@;
    let fields = crate::reading::value_added(
        series,
        fields,
        line,
        quantile_text(decision, 50, 100),
    );
    let line = line + quantile_text(decision, 50, 100);
    let fields = crate::reading::field_opened(
        series,
        fields,
        line,
        "i,decision_p99="@,
        "i"@,
        "decision_p99="@,
    );
    let line = line + "i,decision_p99="@;
    let fields = crate::reading::value_added(
        series,
        fields,
        line,
        quantile_text(decision, 99, 100),
    );
    let line = line + quantile_text(decision, 99, 100);
    let fields = crate::reading::field_opened(
        series,
        fields,
        line,
        "i,count="@,
        "i"@,
        "count="@,
    );
    let line = line + "i,count="@;
    let fields = crate::reading::value_added(
        series,
        fields,
        line,
        crate::text::decimal(count as nat),
    );
    let line = line + crate::text::decimal(count as nat);
    crate::reading::line_ended(series, fields, line, crate::text::decimal(ts as nat));
    let read = crate::reading::read_line(
        execution_latency_line(symbol, e2e, decision, count, ts),
    );
    assert(read.fields[0] == "e2e_p50="@ + quantile_text(e2e, 50, 100) + "i"@);
    assert(read.fields[1] == "e2e_p99="@ + quantile_text(e2e, 99, 100) + "i"@);
    assert(read.fields[2] == "e2e_p999="@ + quantile_text(e2e, 999, 1000) + "i"@);
    assert(read.fields[3] == "decision_p50="@ + quantile_text(decision, 50, 100) + "i"@);
    assert(read.fields[4] == "decision_p99="@ + quantile_text(decision, 99, 100) + "i"@);
    assert(read.fields[5] == "count="@ + crate::text::decimal(count as nat) + "i"@);
}

/// The throughput line reads back as the order total.
pub proof fn law_throughput_reads_back(symbol: Seq<char>, orders_total: u64, ts: u64)
    ensures
        shows_throughput(throughput_line(symbol, orders_total, ts), symbol, orders_total, ts),
{
    lemma_metric_keys();
    crate::reading::lemma_number(orders_total as nat);
    crate::reading::lemma_number(ts as nat);
    let series = "throughput,symbol="@ + symbol;
    let fields = crate::reading::fields_opened(series, " orders_total="@, "orders_total="@);
    let line = series + " orders_total="@;
    let fields = crate::reading::value_added(
        series,
        fields,
        line,
        crate::text::decimal(orders_total as nat),
    );
    let line = line + crate::text::decimal(orders_total as nat);
    crate::reading::line_ended(series, fields, line, crate::text::decimal(ts as nat));
    let read = crate::reading::read_line(throughput_line(symbol, orders_total, ts));
    assert(read.fields[0] == "orders_total="@ + crate::text::decimal(orders_total as nat) + "i"@);
}

/// Writes go to the write endpoint under the base address, of which `host` is what
/// stands in front of the slashes at its end, for the given organisation and bucket
/// and in nanoseconds.
pub proof fn law_writes_go_to_the_endpoint(
    host: Seq<char>,
    slashes: Seq<char>,
    org: Seq<char>,
    bucket: Seq<char>,
)
    requires
        host.len() > 0 ==> host.last() != '/',
        forall|i: int| 0 <= i < slashes.len() ==> slashes[i] == '/',
    ensures
        write_url_of(host + slashes, org, bucket) == host + "/api/v2/write?org="@ + org
            + "&bucket="@ + bucket + "&precision=ns"@,
{
    let base = host + slashes;
    crate::text::law_trimming_removes_end_slashes(base);
    let kept = crate::text::without_end_slashes(base);
    if kept.len() > host.len() {
        assert(kept.last() == slashes[kept.len() - 1 - host.len()]);
    }
    if kept.len() < host.len() {
        assert(base[host.len() - 1] == host.last());
    }
    assert(kept =~= host);
}

} // verus!
