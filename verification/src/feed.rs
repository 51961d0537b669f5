//! Exchange feed simulator: numbers the ticks, draws the random walk, decides
//! when to stop.

use vstd::arithmetic::div_mod::{
    lemma_add_mod_noop_right, lemma_fundamental_div_mod, lemma_mod_multiples_basic,
};
use vstd::prelude::*;

use crate::latency::{RateMeter, RateReport};
use crate::market::MarketTick;
use crate::price::Price;
use crate::symbol::symbol_bytes;

verus! {

/// Multiplier of the generator.
pub const LCG_MULTIPLIER: u64 = 6_364_136_223_846_793_005;

/// Increment of the generator.
pub const LCG_INCREMENT: u64 = 1_442_695_040_888_963_407;

/// What is added to a sequence number to seed the generator.
pub const SEED_OFFSET: u64 = 1_234_567_891;

/// Nanoseconds of a second.
pub const NANOS_PER_SECOND: u64 = 1_000_000_000;

/// Number of values of a machine word.
pub open spec fn word_span() -> nat {
    0x1_0000_0000_0000_0000
}

/// The successor of a generator state.
pub open spec fn lcg(state: u64) -> u64 {
    ((state as nat * LCG_MULTIPLIER as nat + LCG_INCREMENT as nat) % word_span()) as u64
}

/// Minimal LCG for price simulation: not cryptographic, just fast.
pub fn lcg_next(state: &mut u64) -> (r: u64)
    ensures
        r == lcg(*old(state)),
        *final(state) == r,
{
    let product: u64 = state.wrapping_mul(LCG_MULTIPLIER);
    let next: u64 = product.wrapping_add(LCG_INCREMENT);
    proof {
        let whole = *old(state) as int * LCG_MULTIPLIER as int;
        lemma_add_mod_noop_right(LCG_INCREMENT as int, whole, word_span() as int);
    }
    *state = next;
    next
}

/// The key that ticks of a symbol are published under.
pub fn market_key(symbol: &str) -> (r: String)
    ensures
        r@ == "market/tick/"@ + symbol@,
{
    let mut key = "market/tick/".to_owned();
    key.append(symbol);
    key
}

/// Nanoseconds between two ticks at `rate` ticks per second.
pub fn publish_interval_ns(rate: u64) -> (r: u64)
    requires
        rate > 0,
    ensures
        r == NANOS_PER_SECOND / rate,
{
    NANOS_PER_SECOND / rate
}

/// The feed has published all that it should: never where the limit is 0.
pub open spec fn feed_finished(limit: u64, published: nat) -> bool {
    limit > 0 && published >= limit
}

/// Figures for the feed's log.
#[derive(Clone, Copy, Debug, PartialEq, Eq, Structural)]
pub struct FeedReport {
    /// Ticks since the start.
    pub published: u64,
    /// Ticks since the last report.
    pub rate: RateReport,
}

/// A feed of one symbol.
#[derive(Clone, Copy, Debug)]
pub struct Feed {
    pub symbol: [u8; 8],
    /// Ticks to publish in all; 0 for no limit.
    pub limit: u64,
    /// Ticks published so far, and the sequence number of the next one.
    pub seq: u64,
    pub meter: RateMeter,
}

impl Feed {
    /// A feed that has published nothing.
    pub fn new(symbol: &str, limit: u64, now_ns: u64) -> (r: Feed)
        ensures
            r.symbol@ == crate::symbol::packed(vstd::utf8::encode_utf8(symbol@)),
            r.limit == limit,
            r.seq == 0,
            r.meter == (RateMeter { count: 0, opened_ns: now_ns }),
    {
        Feed { symbol: symbol_bytes(symbol), limit, seq: 0, meter: RateMeter::new(now_ns) }
    }

    /// The random word that moves the price for the next tick.
    pub fn draw(&self) -> (r: u64)
        ensures
            r == lcg(((self.seq + SEED_OFFSET) % word_span() as int) as u64),
    {
        let mut state: u64 = self.seq.wrapping_add(SEED_OFFSET);
        lcg_next(&mut state)
    }

    /// The next tick.
    pub fn tick(&self, bid: Price, ask: Price, timestamp_ns: u64) -> (r: MarketTick)
        ensures
            r == (MarketTick { symbol: self.symbol, bid, ask, timestamp_ns, seq: self.seq }),
    {
        MarketTick { symbol: self.symbol, bid, ask, timestamp_ns, seq: self.seq }
    }

    /// Counts the tick that was published.
    pub fn advance(&mut self)
        requires
            old(self).seq < u64::MAX,
            old(self).meter.count < u64::MAX,
        ensures
            final(self).symbol == old(self).symbol,
            final(self).limit == old(self).limit,
            final(self).seq == old(self).seq + 1,
            final(self).meter.count == old(self).meter.count + 1,
            final(self).meter.opened_ns == old(self).meter.opened_ns,
    {
        self.seq = self.seq + 1;
        self.meter.bump();
    }

    /// Once a second has passed, the throughput since the last report.
    pub fn report(&mut self, now_ns: u64) -> (r: Option<FeedReport>)
        ensures
            final(self).symbol == old(self).symbol,
            final(self).limit == old(self).limit,
            final(self).seq == old(self).seq,
            ({
                let elapsed = crate::latency::span(old(self).meter.opened_ns, now_ns);
                if elapsed >= crate::latency::RATE_INTERVAL_NS {
                    &&& r == Some(
                        FeedReport {
                            published: old(self).seq,
                            rate: RateReport { count: old(self).meter.count, elapsed_ns: elapsed },
                        },
                    )
                    &&& final(self).meter == (RateMeter { count: 0, opened_ns: now_ns })
                } else {
                    r is None && final(self).meter == old(self).meter
                }
            }),
    {
        match self.meter.close(now_ns) {
            Some(rate) => Some(FeedReport { published: self.seq, rate }),
            None => None,
        }
    }

    /// True when the target count is reached.
    pub fn finished(&self) -> (r: bool)
        ensures
            r == feed_finished(self.limit, self.seq as nat),
    {
        self.limit > 0 && self.seq >= self.limit
    }
}

/// The sequence numbers of the ticks that a feed publishes, from its `from`-th
/// tick on and in at most `rounds` rounds.
pub open spec fn published_seqs(limit: u64, from: nat, rounds: nat) -> Seq<nat>
    decreases rounds,
{
    if rounds == 0 {
        seq![]
    } else if feed_finished(limit, from + 1) {
        seq![from]
    } else {
        seq![from] + published_seqs(limit, from + 1, (rounds - 1) as nat)
    }
}

proof fn lemma_published_seqs(limit: u64, from: nat, rounds: nat)
    requires
        limit > 0 ==> from < limit,
    ensures
        published_seqs(limit, from, rounds) == Seq::new(
            if limit > 0 && limit - from < rounds {
                (limit - from) as nat
            } else {
                rounds
            },
            |i: int| (from + i) as nat,
        ),
    decreases rounds,
{
    if rounds > 0 && !feed_finished(limit, from + 1) {
        lemma_published_seqs(limit, from + 1, (rounds - 1) as nat);
    }
    assert(published_seqs(limit, from, rounds) =~= Seq::new(
        if limit > 0 && limit - from < rounds {
            (limit - from) as nat
        } else {
            rounds
        },
        |i: int| (from + i) as nat,
    ));
}

/// A feed with a limit publishes exactly that many ticks, one without a limit
/// goes on; either numbers its ticks from 0 without a gap.
pub proof fn law_feed_publishes_its_count(limit: u64, rounds: nat)
    ensures
        published_seqs(limit, 0, rounds) == Seq::new(
            if limit > 0 && limit < rounds {
                limit as nat
            } else {
                rounds
            },
            |i: int| i as nat,
        ),
{
    lemma_published_seqs(limit, 0, rounds);
    assert(published_seqs(limit, 0, rounds) =~= Seq::new(
        if limit > 0 && limit < rounds {
            limit as nat
        } else {
            rounds
        },
        |i: int| i as nat,
    ));
}

/// The generator multiplies by its multiplier, adds its increment and keeps the low
/// 64 bits: what is cut off is a multiple of 2^64.
pub proof fn law_generator_keeps_the_low_word(state: u64)
    ensures
        (state * 6_364_136_223_846_793_005 + 1_442_695_040_888_963_407 - lcg(state))
            % 0x1_0000_0000_0000_0000 == 0,
        word_span() == 0x1_0000_0000_0000_0000,
{
    let whole = state as int * LCG_MULTIPLIER as int + LCG_INCREMENT as int;
    lemma_fundamental_div_mod(whole, 0x1_0000_0000_0000_0000);
    lemma_mod_multiples_basic(whole / 0x1_0000_0000_0000_0000, 0x1_0000_0000_0000_0000);
    assert(whole - lcg(state) == 0x1_0000_0000_0000_0000 * (whole / 0x1_0000_0000_0000_0000));
    assert(state * 6_364_136_223_846_793_005 + 1_442_695_040_888_963_407 == whole);
}

/// A feed is finished from the tick on that makes the limit full; without a limit
/// it never is.
pub proof fn law_feed_is_finished_at_its_limit(limit: u64, published: nat)
    ensures
        limit == 0 ==> !feed_finished(limit, published),
        limit > 0 && published < limit ==> !feed_finished(limit, published),
        limit > 0 && published >= limit ==> feed_finished(limit, published),
{
}

} // verus!
