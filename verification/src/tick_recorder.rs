//! Tick recorder: batches market ticks for QuestDB.

use vstd::prelude::*;

use crate::ilp::{FlushStep, IlpState, IlpWriter};
use crate::market::MarketTick;
use crate::price::Price;

verus! {

/// Dropped ticks between two warnings.
pub const DROP_WARNING_INTERVAL: u64 = 10_000;

/// Counts ticks that were dropped because the channel was full.
#[derive(Clone, Copy, Debug, PartialEq, Eq, Structural)]
pub struct DropCounter {
    pub dropped: u64,
}

impl DropCounter {
    /// A counter at zero.
    pub fn new() -> (r: DropCounter)
        ensures
            r.dropped == 0,
    {
        DropCounter { dropped: 0 }
    }

    /// Counts one dropped tick, and gives the number of ticks dropped before it
    /// where a warning is due: at the first drop and every 10,000 drops after.
    pub fn on_drop(&mut self) -> (r: Option<u64>)
        ensures
            final(self).dropped == (old(self).dropped + 1) % 0x1_0000_0000_0000_0000,
            r == (if old(self).dropped % DROP_WARNING_INTERVAL == 0 {
                Some(old(self).dropped)
            } else {
                None
            }),
    {
        let before: u64 = self.dropped;
        self.dropped = before.wrapping_add(1);
        if before % DROP_WARNING_INTERVAL == 0 {
            Some(before)
        } else {
            None
        }
    }
}

/// What can happen to a tick recorder.
#[derive(Clone, Copy, Debug)]
pub enum TickEvent {
    /// A tick came out of the channel; its mid price and spread are given along.
    Tick { tick: MarketTick, mid: Price, spread: Price },
    /// The channel was closed.
    Closed,
    /// The flush timer fired.
    FlushTimer,
    /// The statistics timer fired.
    StatsTimer,
}

impl TickEvent {
    /// The line that an event adds to the pending ones: that of a tick with
    /// finite prices, else none.
    pub open spec fn line(self) -> Seq<char> {
        match self {
            TickEvent::Tick { tick, mid, spread } => if tick.bid.finite() && tick.ask.finite() {
                crate::ilp::tick_line(tick, mid, spread)
            } else {
                seq![]
            },
            _ => seq![],
        }
    }

    /// What a writer holds after an event, before a flush.
    pub open spec fn recorded(self, writer: IlpState) -> IlpState {
        match self {
            TickEvent::Tick { tick, mid, spread } => writer.with_tick(tick, mid, spread),
            _ => writer,
        }
    }

    /// The flush that an event asks for: after a tick where one is due, on a
    /// closed channel and on the flush timer in any case.
    pub open spec fn flush_step(self, writer: IlpState, now_ns: u64) -> FlushStep {
        match self {
            TickEvent::Tick { .. } => if writer.flush_due(now_ns) {
                writer.flush_start()
            } else {
                FlushStep::Done
            },
            TickEvent::Closed | TickEvent::FlushTimer => writer.flush_start(),
            TickEvent::StatsTimer => FlushStep::Done,
        }
    }
}

/// What a tick recorder asks for.
#[derive(Clone, Copy, Debug, PartialEq, Eq, Structural)]
pub struct TickAction {
    /// What to do first to write pending ticks out.
    pub flush: FlushStep,
    /// Recording ends after the flush.
    pub stop: bool,
    /// The total to log.
    pub report: Option<u64>,
}

/// Counts recorded ticks.
#[derive(Clone, Copy, Debug, PartialEq, Eq, Structural)]
pub struct TickRecorder {
    pub ticks_total: u64,
}

impl TickRecorder {
    /// A recorder that has seen no tick.
    pub fn new() -> (r: TickRecorder)
        ensures
            r.ticks_total == 0,
    {
        TickRecorder { ticks_total: 0 }
    }

    /// Takes an event and says what to do.
    pub fn on_event(&mut self, writer: &mut IlpWriter, event: &TickEvent, now_ns: u64) -> (r:
        TickAction)
        requires
            event is Tick ==> old(self).ticks_total < u64::MAX,
        ensures
            final(self).ticks_total == old(self).ticks_total + if event is Tick {
                1int
            } else {
                0
            },
            final(writer)@ == event.recorded(old(writer)@),
            r.flush == event.flush_step(final(writer)@, now_ns),
            r.stop == (event is Closed),
            r.report == (if event is StatsTimer {
                Some(old(self).ticks_total)
            } else {
                None
            }),
    {
        match event {
            TickEvent::Tick { tick, mid, spread } => {
                writer.push_tick(tick, *mid, *spread);
                self.ticks_total = self.ticks_total + 1;
                let flush = if writer.needs_flush(now_ns) {
                    writer.flush()
                } else {
                    FlushStep::Done
                };
                TickAction { flush, stop: false, report: None }
            },
            TickEvent::Closed => TickAction { flush: writer.flush(), stop: true, report: None },
            TickEvent::FlushTimer => TickAction {
                flush: writer.flush(),
                stop: false,
                report: None,
            },
            TickEvent::StatsTimer => TickAction {
                flush: FlushStep::Done,
                stop: false,
                report: Some(self.ticks_total),
            },
        }
    }
}

/// An event, when it came, and how the steps of the flush that it asks for turn
/// out.  Replies that no step asks for are ignored.
pub struct TickRound {
    pub event: TickEvent,
    pub now_ns: u64,
    /// Outcome and time of each step.
    pub replies: Seq<(bool, u64)>,
}

impl TickRound {
    /// There is a reply to every step that a flush can ask for.
    pub open spec fn answered(self) -> bool {
        self.replies.len() >= 2 * crate::ilp::FLUSH_ATTEMPTS
    }
}

/// What has become of the lines of a run.
pub struct TickHistory {
    /// The data of each flush, flush by flush.
    pub flushed: Seq<Seq<char>>,
    /// What each of these flushes sent.
    pub sent: Seq<Seq<char>>,
    /// What the writer holds.
    pub writer: IlpState,
}

/// What becomes of the lines of a run that starts with `writer`.
pub open spec fn tick_history(writer: IlpState, rounds: Seq<TickRound>) -> TickHistory
    decreases rounds.len(),
{
    if rounds.len() == 0 {
        TickHistory { flushed: seq![], sent: seq![], writer }
    } else {
        let before = tick_history(writer, rounds.drop_last());
        let round = rounds.last();
        let recorded = round.event.recorded(before.writer);
        let step = round.event.flush_step(recorded, round.now_ns);
        if step is Done {
            TickHistory { writer: recorded, ..before }
        } else {
            TickHistory {
                flushed: before.flushed.push(recorded.buf),
                sent: before.sent.push(crate::ilp::flush_sent(recorded, step, round.replies)),
                writer: crate::ilp::flush_run(recorded, step, round.replies).0,
            }
        }
    }
}

/// The lines of the ticks of a run, in the order in which the ticks came; ticks
/// with a non-finite price are left out.
pub open spec fn tick_lines(rounds: Seq<TickRound>) -> Seq<char>
    decreases rounds.len(),
{
    if rounds.len() == 0 {
        seq![]
    } else {
        tick_lines(rounds.drop_last()) + rounds.last().event.line()
    }
}

/// Texts that are the same in two splits stay the same with a line at their end.
proof fn lemma_line_at_end(
    a: Seq<char>,
    b: Seq<char>,
    c: Seq<char>,
    d: Seq<char>,
    line: Seq<char>,
)
    requires
        a + b == c + d,
    ensures
        a + (b + line) == c + (d + line),
{
    assert(a + (b + line) =~= (a + b) + line);
    assert(c + (d + line) =~= (c + d) + line);
}

/// Every line goes into one flush or still waits, in the order in which the ticks
/// came.  Each flush sends all of its data or, where its three attempts fail,
/// nothing.  Once the channel is closed nothing waits.
#[verifier::spinoff_prover]
pub proof fn law_every_line_is_flushed_once(writer: IlpState, rounds: Seq<TickRound>)
    requires
        forall|i: int| 0 <= i < rounds.len() ==> (#[trigger] rounds[i]).answered(),
    ensures
        ({
            let history = tick_history(writer, rounds);
            &&& history.flushed.flatten() + history.writer.buf == writer.buf + tick_lines(rounds)
            &&& history.sent.len() == history.flushed.len()
            &&& forall|i: int|
                0 <= i < history.sent.len() ==> (#[trigger] history.sent[i])
                    == history.flushed[i] || history.sent[i].len() == 0
            &&& rounds.len() > 0 && rounds.last().event is Closed ==> history.writer.buf.len() == 0
        }),
    decreases rounds.len(),
{
    let history = tick_history(writer, rounds);
    if rounds.len() == 0 {
        assert(history.flushed.flatten() + history.writer.buf =~= writer.buf + tick_lines(rounds));
    } else {
        let earlier = rounds.drop_last();
        let round = rounds.last();
        assert(rounds[rounds.len() - 1].answered());
        assert forall|i: int| 0 <= i < earlier.len() implies (#[trigger] earlier[i]).answered() by {
            assert(rounds[i].answered());
        }
        law_every_line_is_flushed_once(writer, earlier);
        let before = tick_history(writer, earlier);
        let recorded = round.event.recorded(before.writer);
        assert(recorded.buf =~= before.writer.buf + round.event.line());
        let step = round.event.flush_step(recorded, round.now_ns);
        lemma_line_at_end(
            before.flushed.flatten(),
            before.writer.buf,
            writer.buf,
            tick_lines(earlier),
            round.event.line(),
        );
        if !(step is Done) {
            crate::ilp::law_flush_sends_all_or_nothing(recorded, round.replies);
            before.flushed.lemma_flatten_push(recorded.buf);
            assert(history.flushed.flatten() + history.writer.buf
                =~= before.flushed.flatten() + recorded.buf);
        }
    }
}

/// Where every connection and every write succeeds, what the flushes sent,
/// joined, and what still waits are the lines of the ticks in order, each once.
pub proof fn law_every_line_is_sent_once(writer: IlpState, rounds: Seq<TickRound>)
    requires
        forall|i: int|
            0 <= i < rounds.len() ==> (#[trigger] rounds[i]).answered()
                && crate::ilp::all_succeed(rounds[i].replies),
    ensures
        tick_history(writer, rounds).sent.flatten() + tick_history(writer, rounds).writer.buf
            == writer.buf + tick_lines(rounds),
{
    law_every_line_is_flushed_once(writer, rounds);
    lemma_all_is_sent(writer, rounds);
}

/// Where every step succeeds, each flush sends its data.
proof fn lemma_all_is_sent(writer: IlpState, rounds: Seq<TickRound>)
    requires
        forall|i: int|
            0 <= i < rounds.len() ==> (#[trigger] rounds[i]).answered()
                && crate::ilp::all_succeed(rounds[i].replies),
    ensures
        tick_history(writer, rounds).sent == tick_history(writer, rounds).flushed,
    decreases rounds.len(),
{
    if rounds.len() > 0 {
        let earlier = rounds.drop_last();
        let round = rounds.last();
        assert(rounds[rounds.len() - 1].answered());
        assert forall|i: int| 0 <= i < earlier.len() implies (#[trigger] earlier[i]).answered()
            && crate::ilp::all_succeed(earlier[i].replies) by {
            assert(rounds[i].answered());
        }
        lemma_all_is_sent(writer, earlier);
        let recorded = round.event.recorded(tick_history(writer, earlier).writer);
        crate::ilp::law_flush_sends_all_or_nothing(recorded, round.replies);
    }
}

/// When pending ticks are written.  The flush timer and a closed channel ask for
/// it in any case, a tick once 32 KB wait or the last flush is 100 ms ago, the
/// statistics timer never.  What is asked for is a write on an open connection, a
/// connection where none is open, and nothing where nothing waits.
pub proof fn law_pending_ticks_are_flushed(event: TickEvent, writer: IlpState, now_ns: u64)
    ensures
        ({
            let step = event.flush_step(writer, now_ns);
            let due = match event {
                TickEvent::Tick { .. } => vstd::utf8::encode_utf8(writer.buf).len() >= 32 * 1024
                    || now_ns >= writer.last_flush_ns + 100_000_000,
                TickEvent::Closed => true,
                TickEvent::FlushTimer => true,
                TickEvent::StatsTimer => false,
            };
            &&& due && writer.buf.len() > 0 && writer.connected ==> step == FlushStep::Write {
                attempt: 0,
            }
            &&& due && writer.buf.len() > 0 && !writer.connected ==> step == FlushStep::Connect {
                attempt: 0,
            }
            &&& !due || writer.buf.len() == 0 ==> step == FlushStep::Done
        }),
{
}

/// What an event adds.  A tick with finite prices adds one line, which reads back
/// as the tick, behind what waited before it; no other event adds anything.
pub proof fn law_event_adds_its_line(event: TickEvent, writer: IlpState)
    ensures
        ({
            let after = event.recorded(writer);
            &&& after.addr == writer.addr
            &&& after.connected == writer.connected
            &&& after.last_flush_ns == writer.last_flush_ns
            &&& after.buf == writer.buf + event.line()
            &&& match event {
                TickEvent::Tick { tick, mid, spread } => if tick.bid.finite() && tick.ask.finite() {
                    crate::ilp::shows_tick(event.line(), tick, mid, spread)
                } else {
                    event.line().len() == 0
                },
                _ => event.line().len() == 0,
            }
        }),
{
    let after = event.recorded(writer);
    assert(after.buf =~= writer.buf + event.line());
    if let TickEvent::Tick { tick, mid, spread } = event {
        if tick.bid.finite() && tick.ask.finite() {
            crate::ilp::lemma_tick_line(tick, mid, spread);
        }
    }
}

/// After a flush timer, as after a closed channel, whose flush is answered to its
/// end, nothing waits, whatever the connection was.
pub proof fn law_answered_timer_leaves_nothing_waiting(writer: IlpState, rounds: Seq<TickRound>)
    requires
        rounds.len() > 0,
        rounds.last().answered(),
        rounds.last().event is FlushTimer || rounds.last().event is Closed,
    ensures
        tick_history(writer, rounds).writer.buf.len() == 0,
{
    let before = tick_history(writer, rounds.drop_last());
    let recorded = rounds.last().event.recorded(before.writer);
    crate::ilp::law_flush_sends_all_or_nothing(recorded, rounds.last().replies);
}

} // verus!
