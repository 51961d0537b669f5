//! Momentum strategy: follows the mid price against its exponential moving
//! average (EMA).
//!
//! A tick at or above the average calls for a BUY, a tick below it for a SELL.
//! A new order is emitted only when the side changes, which avoids order spam.

use vstd::prelude::*;

use crate::latency::{span_ns, LatencyReport, LatencyWindow};
use crate::market::{MarketTick, OrderSignal};
use crate::price::Price;

verus! {

/// Side of a buy order.
pub const BUY: u8 = 0;

/// Side of a sell order.
pub const SELL: u8 = 1;

/// The side that a mid price calls for.
pub open spec fn side_for(mid: Price, ema: Price) -> u8 {
    if mid.reaches(ema) {
        BUY
    } else {
        SELL
    }
}

/// What the strategy remembers between ticks.
#[derive(Clone, Copy, Debug, PartialEq, Eq, Structural)]
pub struct Signal {
    /// The moving average; none before the first tick.
    pub ema: Option<Price>,
    /// Side of the last order; none before the first tick.
    pub prev_side: Option<u8>,
    /// Orders emitted so far, and the sequence number of the last one.
    pub seq: u64,
}

impl Signal {
    /// The average after a tick: the mid price itself at the first tick, from
    /// then on `blended`.
    pub open spec fn next_ema(self, mid: Price, blended: Price) -> Price {
        match self.ema {
            None => mid,
            Some(_) => blended,
        }
    }

    /// The state after a tick.
    pub open spec fn after(self, mid: Price, blended: Price) -> Signal {
        let ema = self.next_ema(mid, blended);
        let side = side_for(mid, ema);
        Signal {
            ema: Some(ema),
            prev_side: Some(side),
            seq: if self.prev_side == Some(side) {
                self.seq
            } else {
                (self.seq + 1) as u64
            },
        }
    }

    /// The side of the order that a tick gives rise to, if any.
    pub open spec fn order_side(self, mid: Price, blended: Price) -> Option<u8> {
        let side = side_for(mid, self.next_ema(mid, blended));
        if self.prev_side == Some(side) {
            None
        } else {
            Some(side)
        }
    }

    /// The state before the first tick.
    pub fn new() -> (r: Signal)
        ensures
            r == (Signal { ema: None, prev_side: None, seq: 0 }),
    {
        Signal { ema: None, prev_side: None, seq: 0 }
    }

    /// The side of the order that a tick gives rise to, if any; `blended` as for
    /// `on_mid`.
    pub fn decide(&self, mid: Price, blended: Price) -> (r: Option<u8>)
        ensures
            r == self.order_side(mid, blended),
    {
        let ema = match self.ema {
            None => mid,
            Some(_) => blended,
        };
        let side: u8 = if mid.at_or_above(ema) {
            BUY
        } else {
            SELL
        };
        match self.prev_side {
            Some(prev) => if prev == side {
                None
            } else {
                Some(side)
            },
            None => Some(side),
        }
    }

    /// Takes the mid price of a tick and gives the side of the order to emit, if
    /// the side has changed.
    ///
    /// `blended` is the new average for a strategy that already has one:
    /// `alpha * mid + (1 - alpha) * ema`.  At the first tick it is not looked at.
    pub fn on_mid(&mut self, mid: Price, blended: Price) -> (r: Option<u8>)
        requires
            old(self).order_side(mid, blended) is Some ==> old(self).seq < u64::MAX,
        ensures
            *final(self) == old(self).after(mid, blended),
            r == old(self).order_side(mid, blended),
    {
        let decided = self.decide(mid, blended);
        self.ema = match self.ema {
            None => Some(mid),
            Some(_) => Some(blended),
        };
        if let Some(side) = decided {
            self.prev_side = Some(side);
            self.seq = self.seq + 1;
        }
        decided
    }
}

/// The order for a tick: a buy at the ask, a sell at the bid.
pub fn order_for(
    tick: &MarketTick,
    side: u8,
    quantity: Price,
    signal_ns: u64,
    seq: u64,
) -> (r: OrderSignal)
    ensures
        r.symbol == tick.symbol,
        r.side == side,
        forall|i: int| 0 <= i < 7 ==> r._pad@[i] == 0,
        r.quantity == quantity,
        r.limit_price == (if side == BUY {
            tick.ask
        } else {
            tick.bid
        }),
        r.signal_ns == signal_ns,
        r.tick_ns == tick.timestamp_ns,
        r.seq == seq,
{
    OrderSignal {
        symbol: tick.symbol,
        side,
        _pad: [0u8; 7],
        quantity,
        limit_price: if side == BUY {
            tick.ask
        } else {
            tick.bid
        },
        signal_ns,
        tick_ns: tick.timestamp_ns,
        seq,
    }
}

/// Figures for the strategy's log.
#[derive(Clone, Copy, Debug, PartialEq, Eq, Structural)]
pub struct SignalReport {
    /// Orders emitted since the start.
    pub signals: u64,
    /// Tick-to-signal latency since the last report.
    pub latency: LatencyReport,
}

/// The strategy engine.
#[derive(Debug)]
pub struct Strategy {
    pub signal: Signal,
    /// Quantity of every order.
    pub quantity: Price,
    /// Tick-to-signal latencies of emitted orders.
    pub window: LatencyWindow,
}

impl Strategy {
    /// A strategy that has seen no tick.
    pub fn new(quantity: Price, now_ns: u64) -> (r: Strategy)
        ensures
            r.signal == (Signal { ema: None, prev_side: None, seq: 0 }),
            r.quantity == quantity,
            r.window.samples@.len() == 0,
            r.window.opened_ns == now_ns,
    {
        Strategy { signal: Signal::new(), quantity, window: LatencyWindow::new(now_ns) }
    }

    /// Takes the mid price of a tick and gives the side of the order to emit, if
    /// any; `blended` as for `Signal::on_mid`.
    pub fn on_mid(&mut self, mid: Price, blended: Price) -> (r: Option<u8>)
        requires
            old(self).signal.order_side(mid, blended) is Some ==> old(self).signal.seq < u64::MAX,
        ensures
            final(self).signal == old(self).signal.after(mid, blended),
            final(self).quantity == old(self).quantity,
            final(self).window == old(self).window,
            r == old(self).signal.order_side(mid, blended),
    {
        self.signal.on_mid(mid, blended)
    }

    /// The order that follows from a change of side, stamped `signal_ns`; `side`
    /// is what `on_mid` gave for the tick.  Also records how long after its own
    /// timestamp the tick was received.
    pub fn emit(&mut self, tick: &MarketTick, side: u8, recv_ns: u64, signal_ns: u64) -> (r:
        OrderSignal)
        requires
            old(self).signal.prev_side == Some(side),
        ensures
            r.symbol == tick.symbol,
            r.side == side,
            forall|i: int| 0 <= i < 7 ==> r._pad@[i] == 0,
            r.quantity == old(self).quantity,
            r.limit_price == (if side == BUY {
                tick.ask
            } else {
                tick.bid
            }),
            r.signal_ns == signal_ns,
            r.tick_ns == tick.timestamp_ns,
            r.seq == old(self).signal.seq,
            final(self).signal == old(self).signal,
            final(self).quantity == old(self).quantity,
            final(self).window.samples@ == old(self).window.samples@.push(
                crate::latency::span(tick.timestamp_ns, recv_ns),
            ),
            final(self).window.opened_ns == old(self).window.opened_ns,
    {
        self.window.record(span_ns(tick.timestamp_ns, recv_ns));
        order_for(tick, side, self.quantity, signal_ns, self.signal.seq)
    }

    /// The latency report, where one is owed.
    pub fn report(&mut self, now_ns: u64) -> (r: Option<SignalReport>)
        ensures
            final(self).signal == old(self).signal,
            final(self).quantity == old(self).quantity,
            r is Some == old(self).window.due(now_ns),
            r matches Some(report) ==> {
                &&& report.signals == old(self).signal.seq
                &&& report.latency.describes(old(self).window.samples@)
                &&& final(self).window.samples@.len() == 0
                &&& final(self).window.opened_ns == now_ns
            },
            r is None ==> final(self).window == old(self).window,
    {
        match self.window.close(now_ns) {
            Some(latency) => Some(SignalReport { signals: self.signal.seq, latency }),
            None => None,
        }
    }
}

/// The state after a run of ticks, each given by its mid price and the blended
/// average.
pub open spec fn after_ticks(signal: Signal, ticks: Seq<(Price, Price)>) -> Signal
    decreases ticks.len(),
{
    if ticks.len() == 0 {
        signal
    } else {
        after_ticks(signal, ticks.drop_last()).after(ticks.last().0, ticks.last().1)
    }
}

/// The sides of the orders that a run of ticks gives rise to.
pub open spec fn orders_of(signal: Signal, ticks: Seq<(Price, Price)>) -> Seq<u8>
    decreases ticks.len(),
{
    if ticks.len() == 0 {
        seq![]
    } else {
        let earlier = orders_of(signal, ticks.drop_last());
        match after_ticks(signal, ticks.drop_last()).order_side(ticks.last().0, ticks.last().1) {
            Some(side) => earlier.push(side),
            None => earlier,
        }
    }
}

/// Whatever the prices do, buys and sells alternate, the sequence number counts
/// the orders, and the last order stands for the side that the last tick called
/// for.
pub proof fn law_orders_alternate(ticks: Seq<(Price, Price)>)
    requires
        ticks.len() < u64::MAX,
    ensures
        ({
            let start = Signal { ema: None, prev_side: None, seq: 0 };
            let orders = orders_of(start, ticks);
            let end = after_ticks(start, ticks);
            &&& forall|i: int| 0 <= i < orders.len() ==> orders[i] == BUY || orders[i] == SELL
            &&& forall|i: int| 0 < i < orders.len() ==> orders[i] != #[trigger] orders[i - 1]
            &&& end.seq == orders.len() <= ticks.len()
            &&& ticks.len() > 0 ==> orders.len() > 0 && end.prev_side == Some(orders.last())
        }),
    decreases ticks.len(),
{
    let start = Signal { ema: None, prev_side: None, seq: 0 };
    if ticks.len() > 0 {
        law_orders_alternate(ticks.drop_last());
        let before = after_ticks(start, ticks.drop_last());
        let earlier = orders_of(start, ticks.drop_last());
        assert(ticks.drop_last().len() == 0 ==> before == start);
        let orders = orders_of(start, ticks);
        assert forall|i: int| 0 < i < orders.len() implies orders[i] != #[trigger] orders[i
            - 1] by {
            if i == earlier.len() {
                assert(orders[i - 1] == earlier.last());
            } else {
                assert(earlier[i] != earlier[i - 1]);
            }
        }
    }
}

/// The side that a tick calls for is the side that an order may then be emitted
/// for, and that order has the next sequence number.  A tick that gives rise to no
/// order leaves the side and the number as they were.
pub proof fn law_order_has_the_decided_side(signal: Signal, mid: Price, blended: Price)
    requires
        signal.seq < u64::MAX,
    ensures
        match signal.order_side(mid, blended) {
            Some(side) => {
                &&& side == side_for(mid, signal.next_ema(mid, blended))
                &&& signal.prev_side != Some(side)
                &&& signal.after(mid, blended).prev_side == Some(side)
                &&& signal.after(mid, blended).seq == signal.seq + 1
            },
            None => {
                &&& signal.after(mid, blended).prev_side == signal.prev_side
                &&& signal.after(mid, blended).seq == signal.seq
            },
        },
{
}

/// The first tick always gives an order: its price is its own average, so it is
/// a buy, unless the price is a NaN.
pub proof fn law_first_tick_buys(mid: Price, blended: Price)
    ensures
        (Signal { ema: None, prev_side: None, seq: 0 }).order_side(mid, blended) == Some(
            if mid.nan() {
                SELL
            } else {
                BUY
            },
        ),
{
}

/// A tick calls for a buy exactly where the number that its mid price encodes is at
/// least the number that the average encodes, and for a sell where it is less or
/// where one of them is a NaN.  The average is the price itself at the first tick
/// and the blended one from then on.  An order is emitted for that side, numbered
/// one up, exactly where the side is not that of the last order.
pub proof fn law_side_follows_the_numbers(signal: Signal, mid: Price, blended: Price)
    ensures
        ({
            let after = signal.after(mid, blended);
            let ema = if signal.ema is None { mid } else { blended };
            let below = mid.nan() || ema.nan() || mid.scaled() < ema.scaled();
            let side: u8 = if below { 1 } else { 0 };
            &&& after.ema == Some(ema)
            &&& after.prev_side == Some(side)
            &&& signal.prev_side == Some(side) ==> signal.order_side(mid, blended) is None
                && after.seq == signal.seq
            &&& signal.prev_side != Some(side) ==> signal.order_side(mid, blended) == Some(side)
            &&& signal.prev_side != Some(side) && signal.seq < u64::MAX ==> after.seq
                == signal.seq + 1
        }),
{
}

/// With an average, a mid price strictly below it sells after a buy, and one at or
/// above it buys after a sell; a mid price on the side of the last order gives no
/// order.
pub proof fn law_crossing_the_average_gives_an_order(signal: Signal, mid: Price, blended: Price)
    requires
        signal.ema is Some,
        !mid.nan(),
        !blended.nan(),
    ensures
        signal.prev_side == Some(0u8) && mid.scaled() < blended.scaled() ==> signal.order_side(
            mid,
            blended,
        ) == Some(1u8),
        signal.prev_side == Some(1u8) && mid.scaled() >= blended.scaled() ==> signal.order_side(
            mid,
            blended,
        ) == Some(0u8),
        signal.prev_side == Some(0u8) && mid.scaled() >= blended.scaled() ==> signal.order_side(
            mid,
            blended,
        ) is None,
        signal.prev_side == Some(1u8) && mid.scaled() < blended.scaled() ==> signal.order_side(
            mid,
            blended,
        ) is None,
{
}

} // verus!
