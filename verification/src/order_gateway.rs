//! Order gateway: routes order signals to the exchange and measures their
//! end-to-end tick-to-order latency.

use vstd::endian::endianness;
use vstd::prelude::*;

use crate::latency::{span_ns, LatencyReport, LatencyWindow};
use crate::market::OrderSignal;

verus! {

/// An order on its way to the exchange.
#[derive(Debug, PartialEq, Eq)]
pub struct RoutedOrder {
    /// Bytes to publish.
    pub payload: Vec<u8>,
    /// From the exchange tick's timestamp to the order reaching the gateway.
    pub e2e_ns: u64,
}

/// Figures for the gateway's log.
#[derive(Clone, Copy, Debug, PartialEq, Eq, Structural)]
pub struct RoutingReport {
    /// Orders routed since the start.
    pub routed: u64,
    /// End-to-end latency since the last report.
    pub latency: LatencyReport,
}

/// Routes orders.
#[derive(Debug)]
pub struct OrderGateway {
    /// Orders routed since the start.
    pub routed: u64,
    pub window: LatencyWindow,
}

impl OrderGateway {
    /// A gateway that has routed nothing.
    pub fn new(now_ns: u64) -> (r: OrderGateway)
        ensures
            r.routed == 0,
            r.window.samples@.len() == 0,
            r.window.opened_ns == now_ns,
    {
        OrderGateway { routed: 0, window: LatencyWindow::new(now_ns) }
    }

    /// Takes an order that reached the gateway at `gw_ns`.
    pub fn route(&mut self, order: &OrderSignal, gw_ns: u64) -> (r: RoutedOrder)
        requires
            old(self).routed < u64::MAX,
        ensures
            r.payload@ == order.wire(endianness()),
            r.e2e_ns == crate::latency::span(order.tick_ns, gw_ns),
            final(self).routed == old(self).routed + 1,
            final(self).window.samples@ == old(self).window.samples@.push(r.e2e_ns),
            final(self).window.opened_ns == old(self).window.opened_ns,
    {
        let e2e_ns: u64 = span_ns(order.tick_ns, gw_ns);
        self.window.record(e2e_ns);
        self.routed = self.routed + 1;
        RoutedOrder { payload: order.to_bytes(), e2e_ns }
    }

    /// The latency report, where one is owed.
    pub fn report(&mut self, now_ns: u64) -> (r: Option<RoutingReport>)
        ensures
            final(self).routed == old(self).routed,
            r is Some == old(self).window.due(now_ns),
            r matches Some(report) ==> {
                &&& report.routed == old(self).routed
                &&& report.latency.describes(old(self).window.samples@)
                &&& final(self).window.samples@.len() == 0
                &&& final(self).window.opened_ns == now_ns
            },
            r is None ==> final(self).window == old(self).window,
    {
        match self.window.close(now_ns) {
            Some(latency) => Some(RoutingReport { routed: self.routed, latency }),
            None => None,
        }
    }
}

} // verus!
