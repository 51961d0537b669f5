//! InfluxDB Line Protocol (ILP) writer over a persistent TCP connection.
//!
//! Used to stream data into QuestDB's ILP listener (default port 9009).
//! Buffers lines and asks for a flush when the buffer reaches 32 KB or 100 ms
//! have elapsed, whichever comes first.
//!
//! The writer decides, the caller does the network work: `flush` says what to do
//! first, `flush_reply` takes the outcome and says what to do next.  Buffered
//! data is preserved across reconnects and retried up to 3 times before being
//! dropped.

use vstd::prelude::*;

use crate::latency::{span_ns, OrderLatencies};
use crate::market::{MarketTick, OrderSignal};
use crate::price::Price;
use crate::price_text::push_price;
use crate::text::push_decimal;

verus! {

/// Buffer size in bytes from which a flush is due.
pub const BUF_LIMIT: usize = 32_768;

/// Age of the last flush from which a flush is due.
pub const FLUSH_INTERVAL_NS: u64 = 100_000_000;

/// Attempts at sending a buffer before it is dropped.
pub const FLUSH_ATTEMPTS: u8 = 3;

/// The next thing to do for a flush.
#[derive(Clone, Copy, Debug, PartialEq, Eq, Structural)]
pub enum FlushStep {
    /// Nothing: the flush is over.
    Done,
    /// Open a connection to the writer's address.
    Connect { attempt: u8 },
    /// Write all pending data to the connection.
    Write { attempt: u8 },
}

/// What a writer holds.
#[verifier::ext_equal]
pub struct IlpState {
    /// Where to connect to.
    pub addr: Seq<char>,
    /// A connection is open.
    pub connected: bool,
    /// Lines that wait for a flush.
    pub buf: Seq<char>,
    /// When the buffer was last emptied, on a clock of the caller's.
    pub last_flush_ns: u64,
}

impl IlpState {
    /// Size or age ask for a flush.
    pub open spec fn flush_due(self, now_ns: u64) -> bool {
        vstd::utf8::encode_utf8(self.buf).len() >= BUF_LIMIT || crate::latency::span(
            self.last_flush_ns,
            now_ns,
        ) >= FLUSH_INTERVAL_NS
    }

    /// The state with one more line.
    pub open spec fn with_line(self, line: Seq<char>) -> IlpState {
        IlpState { buf: self.buf + line, ..self }
    }

    /// The state with the line of a tick; ticks with a non-finite price are left
    /// out.
    pub open spec fn with_tick(self, tick: MarketTick, mid: Price, spread: Price) -> IlpState {
        if tick.bid.finite() && tick.ask.finite() {
            self.with_line(tick_line(tick, mid, spread))
        } else {
            self
        }
    }

    /// The state with the line of an order; orders with a non-finite quantity or
    /// price are left out.
    pub open spec fn with_order(self, order: OrderSignal, submitted_ns: u64) -> IlpState {
        if order.quantity.finite() && order.limit_price.finite() {
            self.with_line(order_line(order, submitted_ns))
        } else {
            self
        }
    }

    /// The state with the buffer emptied.
    pub open spec fn emptied(self, now_ns: u64) -> IlpState {
        IlpState { buf: seq![], last_flush_ns: now_ns, ..self }
    }

    /// What a flush starts with.
    pub open spec fn flush_start(self) -> FlushStep {
        if self.buf.len() == 0 {
            FlushStep::Done
        } else if self.connected {
            FlushStep::Write { attempt: 0 }
        } else {
            FlushStep::Connect { attempt: 0 }
        }
    }

    /// A failed attempt: the connection is given up, and after the last attempt
    /// the data too.
    pub open spec fn flush_failed(self, attempt: u8, now_ns: u64) -> (IlpState, FlushStep) {
        let down = IlpState { connected: false, ..self };
        if attempt + 1 < FLUSH_ATTEMPTS {
            (down, FlushStep::Connect { attempt: (attempt + 1) as u8 })
        } else {
            (down.emptied(now_ns), FlushStep::Done)
        }
    }

    /// What follows when the step `asked` for has succeeded or failed.
    pub open spec fn flush_next(self, asked: FlushStep, ok: bool, now_ns: u64) -> (
        IlpState,
        FlushStep,
    ) {
        match asked {
            FlushStep::Done => (self, FlushStep::Done),
            FlushStep::Connect { attempt } => if ok {
                (IlpState { connected: true, ..self }, FlushStep::Write { attempt })
            } else {
                self.flush_failed(attempt, now_ns)
            },
            FlushStep::Write { attempt } => if ok {
                (self.emptied(now_ns), FlushStep::Done)
            } else {
                self.flush_failed(attempt, now_ns)
            },
        }
    }
}

/// The line of a market tick with the given mid price and spread.
pub open spec fn tick_line(tick: MarketTick, mid: Price, spread: Price) -> Seq<char> {
    "market_ticks,symbol="@ + crate::symbol::symbol_text(tick.symbol@) + " bid="@
        + crate::price_text::price_text(tick.bid) + ",ask="@ + crate::price_text::price_text(
        tick.ask,
    ) + ",mid="@ + crate::price_text::price_text(mid) + ",spread="@
        + crate::price_text::price_text(spread) + ",seq="@ + crate::text::decimal(tick.seq as nat)
        + "i "@ + crate::text::decimal(tick.timestamp_ns as nat) + "\n"@
}

/// The line of an order that was submitted at `submitted_ns`.
pub open spec fn order_line(order: OrderSignal, submitted_ns: u64) -> Seq<char> {
    let l = OrderLatencies::spec_of(order, submitted_ns);
    "order_signals,symbol="@ + crate::symbol::symbol_text(order.symbol@) + ",side="@
        + crate::market::side_text(order.side) + " qty="@ + crate::price_text::price_text(
        order.quantity,
    ) + ",price="@ + crate::price_text::price_text(order.limit_price) + ",decision_ns="@
        + crate::text::decimal(l.decision_ns as nat) + "i,submission_ns="@ + crate::text::decimal(
        l.submission_ns as nat,
    ) + "i,e2e_ns="@ + crate::text::decimal(l.e2e_ns as nat) + "i,seq="@ + crate::text::decimal(
        order.seq as nat,
    ) + "i "@ + crate::text::decimal(order.signal_ns as nat) + "\n"@
}

/// Buffers ILP lines for one connection.
#[derive(Debug)]
pub struct IlpWriter {
    addr: String,
    connected: bool,
    buf: String,
    last_flush_ns: u64,
}

impl View for IlpWriter {
    type V = IlpState;

    closed spec fn view(&self) -> IlpState {
        IlpState {
            addr: self.addr@,
            connected: self.connected,
            buf: self.buf@,
            last_flush_ns: self.last_flush_ns,
        }
    }
}

impl IlpWriter {
    /// A writer for the listener at `addr`, not yet connected.
    pub fn new(addr: &str, now_ns: u64) -> (r: IlpWriter)
        ensures
            r@ == (IlpState {
                addr: addr@,
                connected: false,
                buf: seq![],
                last_flush_ns: now_ns,
            }),
    {
        IlpWriter {
            addr: addr.to_owned(),
            connected: false,
            buf: String::new(),
            last_flush_ns: now_ns,
        }
    }

    /// Where to connect to.
    pub fn addr(&self) -> (r: &str)
        ensures
            r@ == self@.addr,
    {
        self.addr.as_str()
    }

    /// The lines that wait for a flush.
    pub fn pending(&self) -> (r: &str)
        ensures
            r@ == self@.buf,
    {
        self.buf.as_str()
    }

    /// True while a connection is open.
    pub fn is_connected(&self) -> (r: bool)
        ensures
            r == self@.connected,
    {
        self.connected
    }

    /// Append a market tick as an ILP line, with its mid price and spread.
    /// Silently drops the tick if any price field is non-finite.
    pub fn push_tick(&mut self, tick: &MarketTick, mid: Price, spread: Price)
        ensures
            final(self)@ == old(self)@.with_tick(*tick, mid, spread),
    {
        if !tick.bid.is_finite() || !tick.ask.is_finite() {
            return;
        }
        let mut line = "market_ticks,symbol=".to_owned();
        line.append(tick.symbol_str());
        line.append(" bid=");
        push_price(&mut line, tick.bid);
        line.append(",ask=");
        push_price(&mut line, tick.ask);
        line.append(",mid=");
        push_price(&mut line, mid);
        line.append(",spread=");
        push_price(&mut line, spread);
        line.append(",seq=");
        push_decimal(&mut line, tick.seq);
        line.append("i ");
        push_decimal(&mut line, tick.timestamp_ns);
        line.append("\n");
        assert(line@ == tick_line(*tick, mid, spread));
        self.buf.append(line.as_str());
    }

    /// Append an order signal as an ILP line.
    /// Computes decision_ns, submission_ns, and e2e_ns from the embedded timestamps.
    /// Silently drops the order if quantity or price is non-finite.
    pub fn push_order(&mut self, order: &OrderSignal, submitted_ns: u64)
        ensures
            final(self)@ == old(self)@.with_order(*order, submitted_ns),
    {
        if !order.quantity.is_finite() || !order.limit_price.is_finite() {
            return;
        }
        let l = OrderLatencies::of(order, submitted_ns);
        let mut line = "order_signals,symbol=".to_owned();
        line.append(order.symbol_str());
        line.append(",side=");
        line.append(order.side_str());
        line.append(" qty=");
        push_price(&mut line, order.quantity);
        line.append(",price=");
        push_price(&mut line, order.limit_price);
        line.append(",decision_ns=");
        push_decimal(&mut line, l.decision_ns);
        line.append("i,submission_ns=");
        push_decimal(&mut line, l.submission_ns);
        line.append("i,e2e_ns=");
        push_decimal(&mut line, l.e2e_ns);
        line.append("i,seq=");
        push_decimal(&mut line, order.seq);
        line.append("i ");
        push_decimal(&mut line, order.signal_ns);
        line.append("\n");
        assert(line@ == order_line(*order, submitted_ns));
        self.buf.append(line.as_str());
    }

    /// True when the buffer should be flushed (size or age threshold reached).
    pub fn needs_flush(&self, now_ns: u64) -> (r: bool)
        ensures
            r == self@.flush_due(now_ns),
    {
        self.buf.as_str().as_bytes().len() >= BUF_LIMIT || span_ns(self.last_flush_ns, now_ns)
            >= FLUSH_INTERVAL_NS
    }

    /// What to do first to flush pending lines.
    pub fn flush(&self) -> (r: FlushStep)
        ensures
            r == self@.flush_start(),
    {
        if self.buf.as_str().is_empty() {
            FlushStep::Done
        } else if self.connected {
            FlushStep::Write { attempt: 0 }
        } else {
            FlushStep::Connect { attempt: 0 }
        }
    }

    /// Takes the outcome of the step `asked` for and says what to do next.
    /// Drops buffered data after exhausting retries.
    pub fn flush_reply(&mut self, asked: FlushStep, ok: bool, now_ns: u64) -> (r: FlushStep)
        ensures
            (final(self)@, r) == old(self)@.flush_next(asked, ok, now_ns),
    {
        let attempt: u8 = match asked {
            FlushStep::Done => {
                return FlushStep::Done;
            },
            FlushStep::Connect { attempt } => {
                if ok {
                    self.connected = true;
                    return FlushStep::Write { attempt };
                }
                attempt
            },
            FlushStep::Write { attempt } => {
                if ok {
                    self.buf = String::new();
                    self.last_flush_ns = now_ns;
                    return FlushStep::Done;
                }
                attempt
            },
        };
        self.connected = false;
        if attempt < FLUSH_ATTEMPTS - 1 {
            FlushStep::Connect { attempt: attempt + 1 }
        } else {
            self.buf = String::new();
            self.last_flush_ns = now_ns;
            FlushStep::Done
        }
    }
}

/// The state and the step that a flush reaches when its steps are answered with
/// `replies` in turn; each reply is an outcome and the time of it.
pub open spec fn flush_run(state: IlpState, asked: FlushStep, replies: Seq<(bool, u64)>) -> (
    IlpState,
    FlushStep,
)
    decreases replies.len(),
{
    if replies.len() == 0 {
        (state, asked)
    } else {
        let (next, step) = state.flush_next(asked, replies[0].0, replies[0].1);
        flush_run(next, step, replies.drop_first())
    }
}

/// How many writes of such a run succeed.
pub open spec fn flush_writes(state: IlpState, asked: FlushStep, replies: Seq<(bool, u64)>) -> nat
    decreases replies.len(),
{
    if replies.len() == 0 {
        0
    } else {
        let (next, step) = state.flush_next(asked, replies[0].0, replies[0].1);
        let here: nat = if asked is Write && replies[0].0 { 1 } else { 0 };
        here + flush_writes(next, step, replies.drop_first())
    }
}

/// How many attempts of such a run fail.
pub open spec fn flush_failures(state: IlpState, asked: FlushStep, replies: Seq<(bool, u64)>) -> nat
    decreases replies.len(),
{
    if replies.len() == 0 {
        0
    } else {
        let (next, step) = state.flush_next(asked, replies[0].0, replies[0].1);
        let here: nat = if !(asked is Done) && !replies[0].0 { 1 } else { 0 };
        here + flush_failures(next, step, replies.drop_first())
    }
}

/// What such a run sends: the pending data of each write that succeeds.
pub open spec fn flush_sent(state: IlpState, asked: FlushStep, replies: Seq<(bool, u64)>) -> Seq<
    char,
>
    decreases replies.len(),
{
    if replies.len() == 0 {
        seq![]
    } else {
        let (next, step) = state.flush_next(asked, replies[0].0, replies[0].1);
        let here = if asked is Write && replies[0].0 { state.buf } else { seq![] };
        here + flush_sent(next, step, replies.drop_first())
    }
}

/// Every one of the replies is a success.
pub open spec fn all_succeed(replies: Seq<(bool, u64)>) -> bool {
    forall|i: int| 0 <= i < replies.len() ==> (#[trigger] replies[i]).0
}

/// Steps that a flush can still ask for, the present one counted.
pub open spec fn flush_steps_left(asked: FlushStep) -> int {
    match asked {
        FlushStep::Done => 0,
        FlushStep::Connect { attempt } => 2 * (FLUSH_ATTEMPTS - attempt),
        FlushStep::Write { attempt } => 2 * (FLUSH_ATTEMPTS - attempt) - 1,
    }
}

/// The attempt that a step belongs to; all of them once the flush is over.
pub open spec fn flush_attempt(asked: FlushStep) -> int {
    match asked {
        FlushStep::Done => FLUSH_ATTEMPTS as int,
        FlushStep::Connect { attempt } => attempt as int,
        FlushStep::Write { attempt } => attempt as int,
    }
}

/// The step is one that the writer can have asked for.
pub open spec fn flush_step_valid(asked: FlushStep) -> bool {
    !(asked is Done) ==> flush_attempt(asked) < FLUSH_ATTEMPTS
}

proof fn lemma_flush_run(state: IlpState, asked: FlushStep, replies: Seq<(bool, u64)>)
    requires
        flush_step_valid(asked),
        !(asked is Done),
    ensures
        ({
            let (end, step) = flush_run(state, asked, replies);
            let writes = flush_writes(state, asked, replies);
            let failures = flush_failures(state, asked, replies);
            let sent = flush_sent(state, asked, replies);
            &&& flush_step_valid(step)
            &&& sent == if writes == 1 { state.buf } else { seq![] }
            &&& all_succeed(replies) ==> failures == 0
            &&& end.addr == state.addr
            &&& replies.len() >= flush_steps_left(asked) ==> step is Done
            &&& !(step is Done) ==> end.buf == state.buf && end.last_flush_ns
                == state.last_flush_ns
            &&& !(step is Done) ==> writes == 0 && flush_attempt(asked) + failures
                == flush_attempt(step)
            &&& step is Done ==> end.buf.len() == 0
            &&& step is Done ==> (writes == 1 && flush_attempt(asked) + failures < FLUSH_ATTEMPTS)
                || (writes == 0 && flush_attempt(asked) + failures == FLUSH_ATTEMPTS)
        }),
    decreases replies.len(),
{
    if replies.len() > 0 {
        let rest = replies.drop_first();
        let (next, step) = state.flush_next(asked, replies[0].0, replies[0].1);
        if all_succeed(replies) {
            assert(replies[0].0);
            assert forall|i: int| 0 <= i < rest.len() implies (#[trigger] rest[i]).0 by {
                assert(replies[i + 1].0);
            }
        }
        if step is Done {
            lemma_flush_over(next, rest);
        } else {
            lemma_flush_run(next, step, rest);
        }
        assert(state.buf + seq![] =~= state.buf);
        assert(seq![] + flush_sent(next, step, rest) =~= flush_sent(next, step, rest));
    }
}

/// Replies to a flush that is over change nothing.
proof fn lemma_flush_over(state: IlpState, replies: Seq<(bool, u64)>)
    ensures
        flush_run(state, FlushStep::Done, replies) == (state, FlushStep::Done),
        flush_writes(state, FlushStep::Done, replies) == 0,
        flush_failures(state, FlushStep::Done, replies) == 0,
        flush_sent(state, FlushStep::Done, replies).len() == 0,
    decreases replies.len(),
{
    if replies.len() > 0 {
        lemma_flush_over(state, replies.drop_first());
    }
}

/// A flush asks for at most six steps, whatever their outcomes: three times a
/// connection and a write.
pub proof fn law_flush_ends(state: IlpState, replies: Seq<(bool, u64)>)
    requires
        replies.len() >= 2 * FLUSH_ATTEMPTS,
    ensures
        flush_run(state, state.flush_start(), replies).1 is Done,
{
    if state.flush_start() is Done {
        lemma_flush_over(state, replies);
    } else {
        lemma_flush_run(state, state.flush_start(), replies);
    }
}

/// Until a flush is over, across reconnects, it keeps the buffered data and the
/// time of the last flush.
pub proof fn law_flush_preserves_data(state: IlpState, replies: Seq<(bool, u64)>)
    requires
        !(flush_run(state, state.flush_start(), replies).1 is Done),
    ensures
        flush_run(state, state.flush_start(), replies).0.buf == state.buf,
        flush_run(state, state.flush_start(), replies).0.last_flush_ns == state.last_flush_ns,
        flush_writes(state, state.flush_start(), replies) == 0,
{
    if state.flush_start() is Done {
        lemma_flush_over(state, replies);
    } else {
        lemma_flush_run(state, state.flush_start(), replies);
    }
}

/// The last reply acts on what the replies before it led to.
proof fn lemma_flush_run_last(state: IlpState, asked: FlushStep, replies: Seq<(bool, u64)>)
    requires
        replies.len() > 0,
    ensures
        flush_run(state, asked, replies) == ({
            let (before, step) = flush_run(state, asked, replies.drop_last());
            before.flush_next(step, replies.last().0, replies.last().1)
        }),
    decreases replies.len(),
{
    let (next, step) = state.flush_next(asked, replies[0].0, replies[0].1);
    let rest = replies.drop_first();
    if rest.len() == 0 {
        assert(replies.drop_last() =~= seq![]);
        assert(flush_run(next, step, rest) == (next, step));
    } else {
        lemma_flush_run_last(next, step, rest);
        assert(rest.drop_last() =~= replies.drop_last().drop_first());
        assert(rest.last() == replies.last());
    }
}

/// A flush with data to send ends, with the reply that ends it, in one of two
/// ways: all of the data was written, once, after fewer than three failed
/// attempts; or three attempts failed and nothing was written.  Either way the buffer is then
/// empty, and the time of the last flush is the time of that reply.
pub proof fn law_flush_outcome(state: IlpState, replies: Seq<(bool, u64)>)
    requires
        state.buf.len() > 0,
        replies.len() > 0,
        !(flush_run(state, state.flush_start(), replies.drop_last()).1 is Done),
        flush_run(state, state.flush_start(), replies).1 is Done,
    ensures
        flush_run(state, state.flush_start(), replies).0.buf.len() == 0,
        flush_run(state, state.flush_start(), replies).0.last_flush_ns == replies.last().1,
        flush_run(state, state.flush_start(), replies).0.addr == state.addr,
        ({
            let writes = flush_writes(state, state.flush_start(), replies);
            let failures = flush_failures(state, state.flush_start(), replies);
            let sent = flush_sent(state, state.flush_start(), replies);
            ||| writes == 1 && failures < FLUSH_ATTEMPTS && sent == state.buf
            ||| writes == 0 && failures == FLUSH_ATTEMPTS && sent.len() == 0
        }),
{
    lemma_flush_run(state, state.flush_start(), replies);
    lemma_flush_run_last(state, state.flush_start(), replies);
}

/// Answered to its end, a flush leaves an empty buffer behind.  Where every step
/// succeeds it sends what the buffer held; where not, it sends that or nothing.
pub proof fn law_flush_sends_all_or_nothing(state: IlpState, replies: Seq<(bool, u64)>)
    requires
        replies.len() >= 2 * FLUSH_ATTEMPTS,
    ensures
        flush_run(state, state.flush_start(), replies).0.buf.len() == 0,
        ({
            let sent = flush_sent(state, state.flush_start(), replies);
            &&& sent == state.buf || sent.len() == 0
            &&& all_succeed(replies) ==> sent == state.buf
        }),
{
    if state.flush_start() is Done {
        lemma_flush_over(state, replies);
        assert(flush_sent(state, state.flush_start(), replies) =~= state.buf);
    } else {
        lemma_flush_run(state, state.flush_start(), replies);
    }
}

/// Data that has waited for 100 ms or fills 32 KB makes a flush that asks for
/// network work, whichever comes first.
pub proof fn law_due_data_is_flushed(state: IlpState, now_ns: u64)
    requires
        state.buf.len() > 0,
        vstd::utf8::encode_utf8(state.buf).len() >= BUF_LIMIT || (now_ns >= state.last_flush_ns
            && now_ns - state.last_flush_ns >= FLUSH_INTERVAL_NS),
    ensures
        state.flush_due(now_ns),
        !(state.flush_start() is Done),
{
}

/// A flush without data asks for nothing and changes nothing, not even the time
/// of the last flush.
pub proof fn law_empty_flush_is_idle(state: IlpState, replies: Seq<(bool, u64)>)
    requires
        state.buf.len() == 0,
    ensures
        state.flush_start() is Done,
        flush_run(state, state.flush_start(), replies).0 == state,
{
    lemma_flush_over(state, replies);
}

/// The text holds no line break.
pub open spec fn unbroken(text: Seq<char>) -> bool {
    !text.contains('\n')
}

/// The text is one line: a line break at its end and nowhere else.
pub open spec fn one_line(text: Seq<char>) -> bool {
    text.len() > 0 && text.last() == '\n' && unbroken(text.drop_last())
}

/// Two texts without line breaks, joined.
proof fn joined(a: Seq<char>, b: Seq<char>) -> (r: Seq<char>)
    requires
        unbroken(a),
        unbroken(b),
    ensures
        r == a + b,
        unbroken(r),
{
    if (a + b).contains('\n') {
        let k = choose|k: int| 0 <= k < (a + b).len() && (a + b)[k] == '\n';
        if k < a.len() {
            assert(a.contains(a[k]));
        } else {
            assert(b.contains(b[k - a.len()]));
        }
    }
    a + b
}

proof fn lemma_unbroken_decimal(n: nat)
    ensures
        unbroken(crate::text::decimal(n)),
    decreases n,
{
    if n >= 10 {
        lemma_unbroken_decimal(n / 10);
        let head = crate::text::decimal(n / 10);
        let tail = seq![crate::text::digit_char(n % 10)];
        joined(head, tail);
        assert(crate::text::decimal(n) =~= head + tail);
    }
}

/// The fixed parts of a line, the last one aside, hold no line break.
proof fn lemma_unbroken_parts()
    ensures
        unbroken("market_ticks,symbol="@),
        unbroken(" bid="@),
        unbroken(",ask="@),
        unbroken(",mid="@),
        unbroken(",spread="@),
        unbroken(",seq="@),
        unbroken("i "@),
        unbroken("order_signals,symbol="@),
        unbroken(",side="@),
        unbroken("BUY"@),
        unbroken("SELL"@),
        unbroken(" qty="@),
        unbroken(",price="@),
        unbroken(",decision_ns="@),
        unbroken("i,submission_ns="@),
        unbroken("i,e2e_ns="@),
        unbroken("i,seq="@),
        "\n"@ == seq!['\n'],
{
    reveal_strlit("market_ticks,symbol=");
    reveal_strlit(" bid=");
    reveal_strlit(",ask=");
    reveal_strlit(",mid=");
    reveal_strlit(",spread=");
    reveal_strlit(",seq=");
    reveal_strlit("i ");
    reveal_strlit("order_signals,symbol=");
    reveal_strlit(",side=");
    reveal_strlit("BUY");
    reveal_strlit("SELL");
    reveal_strlit(" qty=");
    reveal_strlit(",price=");
    reveal_strlit(",decision_ns=");
    reveal_strlit("i,submission_ns=");
    reveal_strlit("i,e2e_ns=");
    reveal_strlit("i,seq=");
    reveal_strlit("\n");
    assert("\n"@ =~= seq!['\n']);
}

proof fn lemma_unbroken_padded(n: nat, width: nat)
    ensures
        unbroken(crate::price_text::padded(n, width)),
    decreases width,
{
    if width > 0 {
        lemma_unbroken_padded(n / 10, (width - 1) as nat);
        let head = crate::price_text::padded(n / 10, (width - 1) as nat);
        let tail = seq![crate::text::digit_char(n % 10)];
        joined(head, tail);
        assert(crate::price_text::padded(n, width) =~= head + tail);
    }
}

proof fn lemma_unbroken_price(price: Price)
    ensures
        unbroken(crate::price_text::price_text(price)),
{
    reveal_strlit("NaN");
    reveal_strlit("inf");
    reveal_strlit("-");
    reveal_strlit("");
    reveal_strlit(".");
    let sign = if price.negative() { "-"@ } else { ""@ };
    let places = crate::price_text::in_places(price);
    let whole = crate::text::decimal(places / crate::price_text::PLACES as nat);
    let fraction = crate::price_text::padded(
        places % crate::price_text::PLACES as nat,
        crate::price_text::PLACE_COUNT as nat,
    );
    joined(sign, "inf"@);
    lemma_unbroken_decimal(places / crate::price_text::PLACES as nat);
    lemma_unbroken_padded(
        places % crate::price_text::PLACES as nat,
        crate::price_text::PLACE_COUNT as nat,
    );
    let text = joined(sign, whole);
    let text = joined(text, "."@);
    joined(text, fraction);
}

/// A tick whose symbol holds no line break adds exactly one line.
#[verifier::spinoff_prover]
pub proof fn law_tick_adds_one_line(tick: MarketTick, mid: Price, spread: Price)
    requires
        unbroken(crate::symbol::symbol_text(tick.symbol@)),
    ensures
        one_line(tick_line(tick, mid, spread)),
{
    lemma_unbroken_parts();
    lemma_unbroken_price(tick.bid);
    lemma_unbroken_price(tick.ask);
    lemma_unbroken_price(mid);
    lemma_unbroken_price(spread);
    lemma_unbroken_decimal(tick.seq as nat);
    lemma_unbroken_decimal(tick.timestamp_ns as nat);
    let line = "market_ticks,symbol="@;
    let line = joined(line, crate::symbol::symbol_text(tick.symbol@));
    let line = joined(line, " bid="@);
    let line = joined(line, crate::price_text::price_text(tick.bid));
    let line = joined(line, ",ask="@);
    let line = joined(line, crate::price_text::price_text(tick.ask));
    let line = joined(line, ",mid="@);
    let line = joined(line, crate::price_text::price_text(mid));
    let line = joined(line, ",spread="@);
    let line = joined(line, crate::price_text::price_text(spread));
    let line = joined(line, ",seq="@);
    let line = joined(line, crate::text::decimal(tick.seq as nat));
    let line = joined(line, "i "@);
    let line = joined(line, crate::text::decimal(tick.timestamp_ns as nat));
    lemma_line_end(line);
}

/// An order whose symbol holds no line break adds exactly one line.
#[verifier::spinoff_prover]
pub proof fn law_order_adds_one_line(order: OrderSignal, submitted_ns: u64)
    requires
        unbroken(crate::symbol::symbol_text(order.symbol@)),
    ensures
        one_line(order_line(order, submitted_ns)),
{
    let l = OrderLatencies::spec_of(order, submitted_ns);
    lemma_unbroken_parts();
    lemma_unbroken_price(order.quantity);
    lemma_unbroken_price(order.limit_price);
    lemma_unbroken_decimal(l.decision_ns as nat);
    lemma_unbroken_decimal(l.submission_ns as nat);
    lemma_unbroken_decimal(l.e2e_ns as nat);
    lemma_unbroken_decimal(order.seq as nat);
    lemma_unbroken_decimal(order.signal_ns as nat);
    let line = "order_signals,symbol="@;
    let line = joined(line, crate::symbol::symbol_text(order.symbol@));
    let line = joined(line, ",side="@);
    let line = joined(line, crate::market::side_text(order.side));
    let line = joined(line, " qty="@);
    let line = joined(line, crate::price_text::price_text(order.quantity));
    let line = joined(line, ",price="@);
    let line = joined(line, crate::price_text::price_text(order.limit_price));
    let line = joined(line, ",decision_ns="@);
    let line = joined(line, crate::text::decimal(l.decision_ns as nat));
    let line = joined(line, "i,submission_ns="@);
    let line = joined(line, crate::text::decimal(l.submission_ns as nat));
    let line = joined(line, "i,e2e_ns="@);
    let line = joined(line, crate::text::decimal(l.e2e_ns as nat));
    let line = joined(line, "i,seq="@);
    let line = joined(line, crate::text::decimal(order.seq as nat));
    let line = joined(line, "i "@);
    let line = joined(line, crate::text::decimal(order.signal_ns as nat));
    lemma_line_end(line);
}

proof fn lemma_line_end(text: Seq<char>)
    requires
        unbroken(text),
    ensures
        one_line(text + seq!['\n']),
{
    assert((text + seq!['\n']).drop_last() =~= text);
}

/// The line reads back as the tick: its series names the instrument, its five
/// fields show bid, ask, mid price, spread and sequence number, and it ends with
/// the tick's own timestamp.
pub open spec fn shows_tick(line: Seq<char>, tick: MarketTick, mid: Price, spread: Price) -> bool {
    let read = crate::reading::read_line(line);
    &&& line.len() > 0 && line.last() == '\n'
    &&& read.series == "market_ticks,symbol="@ + crate::symbol::symbol_text(tick.symbol@)
    &&& read.fields.len() == 5
    &&& crate::reading::price_field(read.fields[0], "bid="@, tick.bid)
    &&& crate::reading::price_field(read.fields[1], "ask="@, tick.ask)
    &&& crate::reading::price_field(read.fields[2], "mid="@, mid)
    &&& crate::reading::price_field(read.fields[3], "spread="@, spread)
    &&& crate::reading::integer_field(read.fields[4], "seq="@, tick.seq as nat)
    &&& crate::text::reads_as(read.timestamp, tick.timestamp_ns as nat)
}

/// The line reads back as the order: its series names the instrument and the side,
/// its six fields show quantity, limit price, the three latencies and the sequence
/// number, and it ends with the time of the signal.
pub open spec fn shows_order(line: Seq<char>, order: OrderSignal, submitted_ns: u64) -> bool {
    let read = crate::reading::read_line(line);
    &&& line.len() > 0 && line.last() == '\n'
    &&& read.series == "order_signals,symbol="@ + crate::symbol::symbol_text(order.symbol@)
        + ",side="@ + (if order.side == 0 { "BUY"@ } else { "SELL"@ })
    &&& read.fields.len() == 6
    &&& crate::reading::price_field(read.fields[0], "qty="@, order.quantity)
    &&& crate::reading::price_field(read.fields[1], "price="@, order.limit_price)
    &&& crate::reading::integer_field(
        read.fields[2],
        "decision_ns="@,
        crate::latency::nanos_between(order.tick_ns, order.signal_ns),
    )
    &&& crate::reading::integer_field(
        read.fields[3],
        "submission_ns="@,
        crate::latency::nanos_between(order.signal_ns, submitted_ns),
    )
    &&& crate::reading::integer_field(
        read.fields[4],
        "e2e_ns="@,
        crate::latency::nanos_between(order.tick_ns, submitted_ns),
    )
    &&& crate::reading::integer_field(read.fields[5], "seq="@, order.seq as nat)
    &&& crate::text::reads_as(read.timestamp, order.signal_ns as nat)
}

/// The keys of a tick line.
proof fn lemma_tick_keys()
    ensures
        " bid="@ == seq![' '] + "bid="@,
        crate::reading::plain("bid="@),
        ",ask="@ == Seq::<char>::empty().push(',') + "ask="@,
        crate::reading::plain("ask="@),
        ",mid="@ == Seq::<char>::empty().push(',') + "mid="@,
        crate::reading::plain("mid="@),
        ",spread="@ == Seq::<char>::empty().push(',') + "spread="@,
        crate::reading::plain("spread="@),
        ",seq="@ == Seq::<char>::empty().push(',') + "seq="@,
        crate::reading::plain("seq="@),
        crate::reading::plain("i"@),
        crate::reading::plain(Seq::<char>::empty()),
{
    reveal_strlit("i");
    reveal_strlit(" bid=");
    reveal_strlit("bid=");
    assert(" bid="@ =~= seq![' '] + "bid="@);
    reveal_strlit(",ask=");
    reveal_strlit("ask=");
    assert(",ask="@ =~= Seq::<char>::empty().push(',') + "ask="@);
    reveal_strlit(",mid=");
    reveal_strlit("mid=");
    assert(",mid="@ =~= Seq::<char>::empty().push(',') + "mid="@);
    reveal_strlit(",spread=");
    reveal_strlit("spread=");
    assert(",spread="@ =~= Seq::<char>::empty().push(',') + "spread="@);
    reveal_strlit(",seq=");
    reveal_strlit("seq=");
    assert(",seq="@ =~= Seq::<char>::empty().push(',') + "seq="@);
}

/// The keys of an order line.
proof fn lemma_order_keys()
    ensures
        " qty="@ == seq![' '] + "qty="@,
        crate::reading::plain("qty="@),
        ",price="@ == Seq::<char>::empty().push(',') + "price="@,
        crate::reading::plain("price="@),
        ",decision_ns="@ == Seq::<char>::empty().push(',') + "decision_ns="@,
        crate::reading::plain("decision_ns="@),
        "i,submission_ns="@ == "i"@.push(',') + "submission_ns="@,
        crate::reading::plain("submission_ns="@),
        "i,e2e_ns="@ == "i"@.push(',') + "e2e_ns="@,
        crate::reading::plain("e2e_ns="@),
        "i,seq="@ == "i"@.push(',') + "seq="@,
        crate::reading::plain("seq="@),
        crate::reading::plain("i"@),
        crate::reading::plain(Seq::<char>::empty()),
{
    reveal_strlit("i");
    reveal_strlit(" qty=");
    reveal_strlit("qty=");
    assert(" qty="@ =~= seq![' '] + "qty="@);
    reveal_strlit(",price=");
    reveal_strlit("price=");
    assert(",price="@ =~= Seq::<char>::empty().push(',') + "price="@);
    reveal_strlit(",decision_ns=");
    reveal_strlit("decision_ns=");
    assert(",decision_ns="@ =~= Seq::<char>::empty().push(',') + "decision_ns="@);
    reveal_strlit("i,submission_ns=");
    reveal_strlit("submission_ns=");
    assert("i,submission_ns="@ =~= "i"@.push(',') + "submission_ns="@);
    reveal_strlit("i,e2e_ns=");
    reveal_strlit("e2e_ns=");
    assert("i,e2e_ns="@ =~= "i"@.push(',') + "e2e_ns="@);
    reveal_strlit("i,seq=");
    reveal_strlit("seq=");
    assert("i,seq="@ =~= "i"@.push(',') + "seq="@);
}

/// The line of a tick reads back as the tick.
#[verifier::spinoff_prover]
pub proof fn lemma_tick_line(tick: MarketTick, mid: Price, spread: Price)
    ensures
        shows_tick(tick_line(tick, mid, spread), tick, mid, spread),
{
    lemma_tick_keys();
    crate::price_text::law_price_text_is_nearest(tick.bid);
    crate::price_text::lemma_price_plain(tick.bid);
    crate::price_text::law_price_text_is_nearest(tick.ask);
    crate::price_text::lemma_price_plain(tick.ask);
    crate::price_text::law_price_text_is_nearest(mid);
    crate::price_text::lemma_price_plain(mid);
    crate::price_text::law_price_text_is_nearest(spread);
    crate::price_text::lemma_price_plain(spread);
    crate::reading::lemma_number(tick.seq as nat);
    crate::reading::lemma_number(tick.timestamp_ns as nat);
    let series = "market_ticks,symbol="@ + crate::symbol::symbol_text(tick.symbol@);
    let line = series;
    let fields = crate::reading::fields_opened(series, " bid="@, "bid="@);
    let line = line + " bid="@;
    let fields = crate::reading::value_added(
        series,
        fields,
        line,
        crate::price_text::price_text(tick.bid),
    );
    let line = line + crate::price_text::price_text(tick.bid);
    let fields = crate::reading::field_opened(
        series,
        fields,
        line,
        ",ask="@,
        Seq::<char>::empty(),
        "ask="@,
    );
    let line = line + ",ask="@;
    let fields = crate::reading::value_added(
        series,
        fields,
        line,
        crate::price_text::price_text(tick.ask),
    );
    let line = line + crate::price_text::price_text(tick.ask);
    let fields = crate::reading::field_opened(
        series,
        fields,
        line,
        ",mid="@,
        Seq::<char>::empty(),
        "mid="@,
    );
    let line = line + ",mid="@;
    let fields = crate::reading::value_added(
        series,
        fields,
        line,
        crate::price_text::price_text(mid),
    );
    let line = line + crate::price_text::price_text(mid);
    let fields = crate::reading::field_opened(
        series,
        fields,
        line,
        ",spread="@,
        Seq::<char>::empty(),
        "spread="@,
    );
    let line = line + ",spread="@;
    let fields = crate::reading::value_added(
        series,
        fields,
        line,
        crate::price_text::price_text(spread),
    );
    let line = line + crate::price_text::price_text(spread);
    let fields = crate::reading::field_opened(
        series,
        fields,
        line,
        ",seq="@,
        Seq::<char>::empty(),
        "seq="@,
    );
    let line = line + ",seq="@;
    let fields = crate::reading::value_added(
        series,
        fields,
        line,
        crate::text::decimal(tick.seq as nat),
    );
    let line = line + crate::text::decimal(tick.seq as nat);
    crate::reading::line_ended(
        series,
        fields,
        line,
        crate::text::decimal(tick.timestamp_ns as nat),
    );
    let read = crate::reading::read_line(tick_line(tick, mid, spread));
    assert(read.fields[0] == "bid="@ + crate::price_text::price_text(tick.bid));
    assert(read.fields[1] == "ask="@ + crate::price_text::price_text(tick.ask));
    assert(read.fields[2] == "mid="@ + crate::price_text::price_text(mid));
    assert(read.fields[3] == "spread="@ + crate::price_text::price_text(spread));
    assert(read.fields[4] == "seq="@ + crate::text::decimal(tick.seq as nat) + "i"@);
}

/// The parts of the line of an order.
#[verifier::spinoff_prover]
proof fn lemma_order_parts(order: OrderSignal, submitted_ns: u64)
    ensures
        ({
            let line = order_line(order, submitted_ns);
            let read = crate::reading::read_line(line);
            let l = OrderLatencies::spec_of(order, submitted_ns);
            &&& line.len() > 0 && line.last() == '\n'
            &&& read.series == "order_signals,symbol="@ + crate::symbol::symbol_text(
                order.symbol@,
            ) + ",side="@ + crate::market::side_text(order.side)
            &&& read.fields.len() == 6
            &&& read.fields[0] == "qty="@ + crate::price_text::price_text(order.quantity)
            &&& read.fields[1] == "price="@ + crate::price_text::price_text(order.limit_price)
            &&& read.fields[2] == "decision_ns="@ + crate::text::decimal(l.decision_ns as nat) + "i"@
            &&& read.fields[3] == "submission_ns="@ + crate::text::decimal(l.submission_ns as nat)
        + "i"@
            &&& read.fields[4] == "e2e_ns="@ + crate::text::decimal(l.e2e_ns as nat) + "i"@
            &&& read.fields[5] == "seq="@ + crate::text::decimal(order.seq as nat) + "i"@
            &&& read.timestamp == crate::text::decimal(order.signal_ns as nat)
        }),
{
    let l = OrderLatencies::spec_of(order, submitted_ns);
    lemma_order_keys();
    crate::price_text::lemma_price_plain(order.quantity);
    crate::price_text::lemma_price_plain(order.limit_price);
    crate::reading::lemma_number(l.decision_ns as nat);
    crate::reading::lemma_number(l.submission_ns as nat);
    crate::reading::lemma_number(l.e2e_ns as nat);
    crate::reading::lemma_number(order.seq as nat);
    crate::reading::lemma_number(order.signal_ns as nat);
    let series = "order_signals,symbol="@ + crate::symbol::symbol_text(order.symbol@)
        + ",side="@ + crate::market::side_text(order.side);
    let line = series;
    let fields = crate::reading::fields_opened(series, " qty="@, "qty="@);
    let line = line + " qty="@;
    let fields = crate::reading::value_added(
        series,
        fields,
        line,
        crate::price_text::price_text(order.quantity),
    );
    let line = line + crate::price_text::price_text(order.quantity);
    let fields = crate::reading::field_opened(
        series,
        fields,
        line,
        ",price="@,
        Seq::<char>::empty(),
        "price="@,
    );
    let line = line + ",price="@;
    let fields = crate::reading::value_added(
        series,
        fields,
        line,
        crate::price_text::price_text(order.limit_price),
    );
    let line = line + crate::price_text::price_text(order.limit_price);
    let fields = crate::reading::field_opened(
        series,
        fields,
        line,
        ",decision_ns="@,
        Seq::<char>::empty(),
        "decision_ns="@,
    );
    let line = line + ",decision_ns="@;
    let fields = crate::reading::value_added(
        series,
        fields,
        line,
        crate::text::decimal(l.decision_ns as nat),
    );
    let line = line + crate::text::decimal(l.decision_ns as nat);
    let fields = crate::reading::field_opened(
        series,
        fields,
        line,
        "i,submission_ns="@,
        "i"@,
        "submission_ns="@,
    );
    let line = line + "i,submission_ns="@;
    let fields = crate::reading::value_added(
        series,
        fields,
        line,
        crate::text::decimal(l.submission_ns as nat),
    );
    let line = line + crate::text::decimal(l.submission_ns as nat);
    let fields = crate::reading::field_opened(
        series,
        fields,
        line,
        "i,e2e_ns="@,
        "i"@,
        "e2e_ns="@,
    );
    let line = line + "i,e2e_ns="@;
    let fields = crate::reading::value_added(
        series,
        fields,
        line,
        crate::text::decimal(l.e2e_ns as nat),
    );
    let line = line + crate::text::decimal(l.e2e_ns as nat);
    let fields = crate::reading::field_opened(
        series,
        fields,
        line,
        "i,seq="@,
        "i"@,
        "seq="@,
    );
    let line = line + "i,seq="@;
    let fields = crate::reading::value_added(
        series,
        fields,
        line,
        crate::text::decimal(order.seq as nat),
    );
    let line = line + crate::text::decimal(order.seq as nat);
    crate::reading::line_ended(series, fields, line, crate::text::decimal(order.signal_ns as nat));
}

/// The line of an order reads back as the order.
pub proof fn lemma_order_line(order: OrderSignal, submitted_ns: u64)
    ensures
        shows_order(order_line(order, submitted_ns), order, submitted_ns),
{
    let l = OrderLatencies::spec_of(order, submitted_ns);
    lemma_order_parts(order, submitted_ns);
    crate::price_text::law_price_text_is_nearest(order.quantity);
    crate::price_text::law_price_text_is_nearest(order.limit_price);
    crate::reading::lemma_number(l.decision_ns as nat);
    crate::reading::lemma_number(l.submission_ns as nat);
    crate::reading::lemma_number(l.e2e_ns as nat);
    crate::reading::lemma_number(order.seq as nat);
    crate::reading::lemma_number(order.signal_ns as nat);
}

/// A tick with finite prices is appended as a line that reads back as the tick,
/// and what waited before it stays in front.  Any other tick changes nothing.
pub proof fn law_tick_line_reads_back(state: IlpState, tick: MarketTick, mid: Price, spread: Price)
    ensures
        ({
            let after = state.with_tick(tick, mid, spread);
            &&& after.addr == state.addr
            &&& after.connected == state.connected
            &&& after.last_flush_ns == state.last_flush_ns
            &&& tick.bid.finite() && tick.ask.finite() ==> exists|line: Seq<char>|
                after.buf == state.buf + line && #[trigger] shows_tick(line, tick, mid, spread)
            &&& !(tick.bid.finite() && tick.ask.finite()) ==> after.buf == state.buf
        }),
{
    lemma_tick_line(tick, mid, spread);
}

/// An order with finite quantity and price is appended as a line that reads back
/// as the order, and what waited before it stays in front.  Any other order
/// changes nothing.
pub proof fn law_order_line_reads_back(state: IlpState, order: OrderSignal, submitted_ns: u64)
    ensures
        ({
            let after = state.with_order(order, submitted_ns);
            let finite = order.quantity.finite() && order.limit_price.finite();
            &&& after.addr == state.addr
            &&& after.connected == state.connected
            &&& after.last_flush_ns == state.last_flush_ns
            &&& finite ==> exists|line: Seq<char>|
                after.buf == state.buf + line && #[trigger] shows_order(line, order, submitted_ns)
            &&& !finite ==> after.buf == state.buf
        }),
{
    lemma_order_line(order, submitted_ns);
}

/// Ticks that differ in sequence number, timestamp or symbol have different lines.
pub proof fn law_tick_lines_tell_ticks_apart(
    a: MarketTick,
    a_mid: Price,
    a_spread: Price,
    b: MarketTick,
    b_mid: Price,
    b_spread: Price,
)
    requires
        tick_line(a, a_mid, a_spread) == tick_line(b, b_mid, b_spread),
    ensures
        a.seq == b.seq,
        a.timestamp_ns == b.timestamp_ns,
        crate::symbol::symbol_text(a.symbol@) == crate::symbol::symbol_text(b.symbol@),
{
    lemma_tick_line(a, a_mid, a_spread);
    lemma_tick_line(b, b_mid, b_spread);
    let read = crate::reading::read_line(tick_line(a, a_mid, a_spread));
    crate::reading::lemma_integer_field_unique(
        read.fields[4],
        "seq="@,
        a.seq as nat,
        b.seq as nat,
    );
    lemma_same_end(
        "market_ticks,symbol="@,
        crate::symbol::symbol_text(a.symbol@),
        crate::symbol::symbol_text(b.symbol@),
    );
}

/// Orders that differ in sequence number, signal time, latencies or, where it holds
/// no comma, symbol have different lines.
pub proof fn law_order_lines_tell_orders_apart(
    a: OrderSignal,
    a_submitted_ns: u64,
    b: OrderSignal,
    b_submitted_ns: u64,
)
    requires
        order_line(a, a_submitted_ns) == order_line(b, b_submitted_ns),
    ensures
        a.seq == b.seq,
        a.signal_ns == b.signal_ns,
        crate::latency::nanos_between(a.tick_ns, a.signal_ns)
            == crate::latency::nanos_between(b.tick_ns, b.signal_ns),
        crate::latency::nanos_between(a.signal_ns, a_submitted_ns)
            == crate::latency::nanos_between(b.signal_ns, b_submitted_ns),
        crate::latency::nanos_between(a.tick_ns, a_submitted_ns)
            == crate::latency::nanos_between(b.tick_ns, b_submitted_ns),
        crate::reading::lacks(crate::symbol::symbol_text(a.symbol@), ',') && crate::reading::lacks(
            crate::symbol::symbol_text(b.symbol@),
            ',',
        ) ==> crate::symbol::symbol_text(a.symbol@) == crate::symbol::symbol_text(b.symbol@)
            && (a.side == 0) == (b.side == 0),
{
    lemma_order_line(a, a_submitted_ns);
    lemma_order_line(b, b_submitted_ns);
    let read = crate::reading::read_line(order_line(a, a_submitted_ns));
    crate::reading::lemma_integer_field_unique(
        read.fields[2],
        "decision_ns="@,
        crate::latency::nanos_between(a.tick_ns, a.signal_ns),
        crate::latency::nanos_between(b.tick_ns, b.signal_ns),
    );
    crate::reading::lemma_integer_field_unique(
        read.fields[3],
        "submission_ns="@,
        crate::latency::nanos_between(a.signal_ns, a_submitted_ns),
        crate::latency::nanos_between(b.signal_ns, b_submitted_ns),
    );
    crate::reading::lemma_integer_field_unique(
        read.fields[4],
        "e2e_ns="@,
        crate::latency::nanos_between(a.tick_ns, a_submitted_ns),
        crate::latency::nanos_between(b.tick_ns, b_submitted_ns),
    );
    crate::reading::lemma_integer_field_unique(
        read.fields[5],
        "seq="@,
        a.seq as nat,
        b.seq as nat,
    );
    let x = crate::symbol::symbol_text(a.symbol@);
    let y = crate::symbol::symbol_text(b.symbol@);
    if crate::reading::lacks(x, ',') && crate::reading::lacks(y, ',') {
        lemma_same_symbol(x, a.side, y, b.side);
    }
}

/// A series without further commas tells its symbol and side.
proof fn lemma_same_symbol(x: Seq<char>, x_kind: u8, y: Seq<char>, y_kind: u8)
    requires
        crate::reading::lacks(x, ','),
        crate::reading::lacks(y, ','),
        "order_signals,symbol="@ + x + ",side="@ + (if x_kind == 0 { "BUY"@ } else { "SELL"@ })
            == "order_signals,symbol="@ + y + ",side="@ + (if y_kind == 0 {
            "BUY"@
        } else {
            "SELL"@
        }),
    ensures
        x == y,
        (x_kind == 0) == (y_kind == 0),
{
    let x_side = if x_kind == 0 { "BUY"@ } else { "SELL"@ };
    let y_side = if y_kind == 0 { "BUY"@ } else { "SELL"@ };
    reveal_strlit(",side=");
    reveal_strlit("BUY");
    reveal_strlit("SELL");
    let head = "order_signals,symbol="@;
    assert(head + x + ",side="@ + x_side =~= head + (x + ",side="@ + x_side));
    assert(head + y + ",side="@ + y_side =~= head + (y + ",side="@ + y_side));
    lemma_same_end(head, x + ",side="@ + x_side, y + ",side="@ + y_side);
    let u = x + ",side="@ + x_side;
    let v = y + ",side="@ + y_side;
    if x.len() < y.len() {
        assert(u[x.len() as int] == ',' && v[x.len() as int] == y[x.len() as int]);
    }
    if y.len() < x.len() {
        assert(v[y.len() as int] == ',' && u[y.len() as int] == x[y.len() as int]);
    }
    assert forall|i: int| 0 <= i < x.len() implies x[i] == y[i] by {
        assert(u[i] == x[i] && v[i] == y[i]);
    }
    assert(x =~= y);
    assert(u[x.len() as int + 6] == x_side[0] && v[x.len() as int + 6] == y_side[0]);
}

/// The line of an order for an instrument `s` of at most eight bytes starts with
/// the name of that instrument.
pub proof fn law_order_line_names_its_instrument(s: Seq<char>, order: OrderSignal, submitted_ns: u64)
    requires
        vstd::utf8::encode_utf8(s).len() <= 8,
        !s.contains('\0'),
        order.symbol@ == crate::symbol::packed(vstd::utf8::encode_utf8(s)),
    ensures
        ("order_signals,symbol="@ + s + ",side="@).is_prefix_of(order_line(order, submitted_ns)),
{
    crate::symbol::law_symbol_round_trip(s);
    lemma_order_line(order, submitted_ns);
    let line = order_line(order, submitted_ns);
    let head = "order_signals,symbol="@ + s + ",side="@;
    assert(head =~= line.subrange(0, head.len() as int));
}

/// Texts with the same front are the same only where their ends are.
proof fn lemma_same_end(front: Seq<char>, a: Seq<char>, b: Seq<char>)
    requires
        front + a == front + b,
    ensures
        a == b,
{
    assert((front + a).len() == front.len() + a.len());
    assert((front + b).len() == front.len() + b.len());
    assert forall|i: int| 0 <= i < a.len() implies a[i] == b[i] by {
        assert((front + a)[front.len() + i] == a[i]);
        assert((front + b)[front.len() + i] == b[i]);
    }
    assert(a =~= b);
}

/// A flush is due as soon as the pending text takes 32 KB or the last flush is
/// 100 ms ago, and not before.
pub proof fn law_flush_is_due_by_size_or_age(state: IlpState, now_ns: u64)
    ensures
        state.flush_due(now_ns) == (vstd::utf8::encode_utf8(state.buf).len() >= 32 * 1024
            || now_ns >= state.last_flush_ns + 100_000_000),
{
}

/// A flush starts with a write on an open connection, with a connection where none
/// is open, and is over at once where nothing waits.
pub proof fn law_flush_starts_with_network_work(state: IlpState)
    ensures
        state.buf.len() == 0 ==> state.flush_start() == FlushStep::Done,
        state.buf.len() > 0 && state.connected ==> state.flush_start() == (FlushStep::Write {
            attempt: 0,
        }),
        state.buf.len() > 0 && !state.connected ==> state.flush_start() == (FlushStep::Connect {
            attempt: 0,
        }),
{
}

/// What an outcome leads to.  A connection is followed by the write of the same
/// attempt; a write ends the flush with an empty buffer, stamped with its time,
/// and keeps the connection.  A failure closes the connection; the first two lead
/// to a connection for the next attempt with all data kept, the third ends the
/// flush and drops the data.  The address never changes.
pub proof fn law_outcome_decides_the_next_step(state: IlpState, attempt: u8, now_ns: u64)
    ensures
        ({
            let (next, step) = state.flush_next(FlushStep::Connect { attempt }, true, now_ns);
            &&& step == FlushStep::Write { attempt }
            &&& next.connected
            &&& next.buf == state.buf
            &&& next.last_flush_ns == state.last_flush_ns
            &&& next.addr == state.addr
        }),
        ({
            let (next, step) = state.flush_next(FlushStep::Write { attempt }, true, now_ns);
            &&& step == FlushStep::Done
            &&& next.connected == state.connected
            &&& next.buf.len() == 0
            &&& next.last_flush_ns == now_ns
            &&& next.addr == state.addr
        }),
        forall|asked: FlushStep|
            asked == (FlushStep::Write { attempt }) || asked == (FlushStep::Connect { attempt })
                ==> {
                let (next, step) = #[trigger] state.flush_next(asked, false, now_ns);
                &&& !next.connected
                &&& next.addr == state.addr
                &&& attempt < 2 ==> {
                    &&& step == FlushStep::Connect { attempt: (attempt + 1) as u8 }
                    &&& next.buf == state.buf
                    &&& next.last_flush_ns == state.last_flush_ns
                }
                &&& attempt >= 2 ==> {
                    &&& step == FlushStep::Done
                    &&& next.buf.len() == 0
                    &&& next.last_flush_ns == now_ns
                }
            },
        forall|ok: bool|
            #[trigger] state.flush_next(FlushStep::Done, ok, now_ns) == (state, FlushStep::Done),
{
}

} // verus!
