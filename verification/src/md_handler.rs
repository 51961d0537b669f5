//! Market-data handler: takes ticks off the network for the local bus.

use vstd::endian::endianness;
use vstd::prelude::*;

use crate::latency::{RateMeter, RateReport};
use crate::market::{MarketTick, PayloadSize};

verus! {

/// Forwards ticks and counts them.
#[derive(Clone, Copy, Debug, PartialEq, Eq, Structural)]
pub struct Forwarder {
    pub meter: RateMeter,
}

impl Forwarder {
    /// A forwarder that has seen no payload.
    pub fn new(now_ns: u64) -> (r: Forwarder)
        ensures
            r.meter == (RateMeter { count: 0, opened_ns: now_ns }),
    {
        Forwarder { meter: RateMeter::new(now_ns) }
    }

    /// The tick to forward.  A payload of unexpected size is refused and not
    /// counted.
    pub fn on_payload(&mut self, bytes: &[u8]) -> (r: Result<MarketTick, PayloadSize>)
        requires
            bytes@.len() == crate::market::TICK_LEN ==> old(self).meter.count < u64::MAX,
        ensures
            r is Ok == (bytes@.len() == crate::market::TICK_LEN),
            r matches Ok(tick) ==> tick.wire(endianness()) == bytes@,
            r matches Err(e) ==> e.len == bytes@.len(),
            final(self).meter.count == old(self).meter.count + if r is Ok {
                1int
            } else {
                0
            },
            final(self).meter.opened_ns == old(self).meter.opened_ns,
    {
        let r = MarketTick::from_bytes(bytes);
        if r.is_ok() {
            self.meter.bump();
        }
        r
    }

    /// Once a second has passed, the throughput since the last report.
    pub fn report(&mut self, now_ns: u64) -> (r: Option<RateReport>)
        ensures
            ({
                let elapsed = crate::latency::span(old(self).meter.opened_ns, now_ns);
                if elapsed >= crate::latency::RATE_INTERVAL_NS {
                    &&& r == Some(
                        RateReport { count: old(self).meter.count, elapsed_ns: elapsed },
                    )
                    &&& final(self).meter == (RateMeter { count: 0, opened_ns: now_ns })
                } else {
                    r is None && final(self).meter == old(self).meter
                }
            }),
    {
        self.meter.close(now_ns)
    }
}

} // verus!
