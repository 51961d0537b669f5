//! The two fixed-size records of the pipeline, and their wire format.

use vstd::endian::{endianness, Endian};
use vstd::prelude::*;

use crate::price::Price;
use crate::symbol::text_of_symbol;
use crate::wire::{push_word, read_word};

verus! {

/// Bytes of a `MarketTick` on the wire.
pub const TICK_LEN: usize = 40;

/// Bytes of an `OrderSignal` on the wire.
pub const ORDER_LEN: usize = 56;

/// A payload that does not have the length of the record it should hold.
#[derive(Clone, Copy, Debug, PartialEq, Eq, Structural)]
pub struct PayloadSize {
    /// Bytes that the payload has.
    pub len: usize,
}

/// A single market tick received from the exchange feed.
///
/// All fields are fixed-size primitives: no heap allocations, no pointers.
#[derive(Clone, Copy, Debug, PartialEq, Eq)]
pub struct MarketTick {
    /// ASCII symbol padded with zeros, e.g. b"BTCUSD\0\0"
    pub symbol: [u8; 8],
    pub bid: Price,
    pub ask: Price,
    /// nanoseconds since UNIX epoch (from the exchange feed publisher)
    pub timestamp_ns: u64,
    /// monotonically increasing sequence number
    pub seq: u64,
}

/// An order signal produced by the strategy engine.
///
/// Carries the original tick timestamp so downstream components can compute
/// end-to-end tick-to-order latency.
#[derive(Clone, Copy, Debug, PartialEq, Eq)]
pub struct OrderSignal {
    pub symbol: [u8; 8],
    /// 0 = buy, 1 = sell
    pub side: u8,
    pub _pad: [u8; 7],
    pub quantity: Price,
    pub limit_price: Price,
    /// nanoseconds since UNIX epoch, set by the strategy when the signal fires
    pub signal_ns: u64,
    /// original tick timestamp, forwarded for e2e latency measurement
    pub tick_ns: u64,
    pub seq: u64,
}

/// Copies eight bytes into a symbol field.
fn read_symbol(bytes: &[u8]) -> (r: [u8; 8])
    requires
        bytes@.len() >= 8,
    ensures
        r@ == bytes@.subrange(0, 8),
{
    let r: [u8; 8] = [
        bytes[0],
        bytes[1],
        bytes[2],
        bytes[3],
        bytes[4],
        bytes[5],
        bytes[6],
        bytes[7],
    ];
    assert(r@ =~= bytes@.subrange(0, 8));
    r
}

impl MarketTick {
    /// The record in the memory of a machine of that byte order: its fields one
    /// after the other, without padding.
    pub open spec fn wire(self, order: Endian) -> Seq<u8> {
        self.symbol@ + crate::wire::word_bytes(order, self.bid.bits) + crate::wire::word_bytes(
            order,
            self.ask.bits,
        ) + crate::wire::word_bytes(order, self.timestamp_ns) + crate::wire::word_bytes(
            order,
            self.seq,
        )
    }

    /// The tick whose bytes are all zero.
    pub fn zeroed() -> (r: MarketTick)
        ensures
            forall|i: int| 0 <= i < 8 ==> r.symbol@[i] == 0,
            r.bid.bits == 0,
            r.ask.bits == 0,
            r.timestamp_ns == 0,
            r.seq == 0,
    {
        MarketTick {
            symbol: [0u8; 8],
            bid: Price { bits: 0 },
            ask: Price { bits: 0 },
            timestamp_ns: 0,
            seq: 0,
        }
    }

    /// The text of the symbol field; `?` where it is not UTF-8.
    pub fn symbol_str(&self) -> (r: &str)
        ensures
            r@ == crate::symbol::symbol_text(self.symbol@),
    {
        text_of_symbol(&self.symbol)
    }

    /// The wire bytes of the tick.
    pub fn to_bytes(&self) -> (r: Vec<u8>)
        ensures
            r@ == self.wire(endianness()),
    {
        let mut buf: Vec<u8> = Vec::with_capacity(TICK_LEN);
        buf.extend_from_slice(self.symbol.as_slice());
        assert(buf@ =~= self.symbol@);
        push_word(&mut buf, self.bid.bits);
        push_word(&mut buf, self.ask.bits);
        push_word(&mut buf, self.timestamp_ns);
        push_word(&mut buf, self.seq);
        buf
    }

    /// The tick that a payload holds, or its length where that is wrong.
    pub fn from_bytes(bytes: &[u8]) -> (r: Result<MarketTick, PayloadSize>)
        ensures
            r is Ok == (bytes@.len() == TICK_LEN),
            r matches Ok(tick) ==> tick.wire(endianness()) == bytes@,
            r matches Err(e) ==> e.len == bytes@.len(),
    {
        if bytes.len() != TICK_LEN {
            return Err(PayloadSize { len: bytes.len() });
        }
        let tick = MarketTick {
            symbol: read_symbol(bytes),
            bid: Price { bits: read_word(bytes, 8) },
            ask: Price { bits: read_word(bytes, 16) },
            timestamp_ns: read_word(bytes, 24),
            seq: read_word(bytes, 32),
        };
        assert(tick.wire(endianness()) =~= bytes@);
        Ok(tick)
    }
}

impl OrderSignal {
    /// The record in the memory of a machine of that byte order: its fields one
    /// after the other.
    pub open spec fn wire(self, order: Endian) -> Seq<u8> {
        self.symbol@ + seq![self.side] + self._pad@ + crate::wire::word_bytes(
            order,
            self.quantity.bits,
        ) + crate::wire::word_bytes(order, self.limit_price.bits) + crate::wire::word_bytes(
            order,
            self.signal_ns,
        ) + crate::wire::word_bytes(order, self.tick_ns) + crate::wire::word_bytes(order, self.seq)
    }

    /// The text of the symbol field; `?` where it is not UTF-8.
    pub fn symbol_str(&self) -> (r: &str)
        ensures
            r@ == crate::symbol::symbol_text(self.symbol@),
    {
        text_of_symbol(&self.symbol)
    }

    /// `BUY` for side 0, `SELL` for any other.
    pub fn side_str(&self) -> (r: &str)
        ensures
            r@ == side_text(self.side),
    {
        if self.side == 0 {
            "BUY"
        } else {
            "SELL"
        }
    }

    /// The wire bytes of the order.
    pub fn to_bytes(&self) -> (r: Vec<u8>)
        ensures
            r@ == self.wire(endianness()),
    {
        let mut buf: Vec<u8> = Vec::with_capacity(ORDER_LEN);
        buf.extend_from_slice(self.symbol.as_slice());
        assert(buf@ =~= self.symbol@);
        buf.push(self.side);
        assert(buf@ =~= self.symbol@ + seq![self.side]);
        buf.extend_from_slice(self._pad.as_slice());
        assert(buf@ =~= self.symbol@ + seq![self.side] + self._pad@);
        push_word(&mut buf, self.quantity.bits);
        push_word(&mut buf, self.limit_price.bits);
        push_word(&mut buf, self.signal_ns);
        push_word(&mut buf, self.tick_ns);
        push_word(&mut buf, self.seq);
        buf
    }

    /// The order that a payload holds, or its length where that is wrong.
    pub fn from_bytes(bytes: &[u8]) -> (r: Result<OrderSignal, PayloadSize>)
        ensures
            r is Ok == (bytes@.len() == ORDER_LEN),
            r matches Ok(order) ==> order.wire(endianness()) == bytes@,
            r matches Err(e) ==> e.len == bytes@.len(),
    {
        if bytes.len() != ORDER_LEN {
            return Err(PayloadSize { len: bytes.len() });
        }
        let pad: [u8; 7] = [
            bytes[9],
            bytes[10],
            bytes[11],
            bytes[12],
            bytes[13],
            bytes[14],
            bytes[15],
        ];
        let order = OrderSignal {
            symbol: read_symbol(bytes),
            side: bytes[8],
            _pad: pad,
            quantity: Price { bits: read_word(bytes, 16) },
            limit_price: Price { bits: read_word(bytes, 24) },
            signal_ns: read_word(bytes, 32),
            tick_ns: read_word(bytes, 40),
            seq: read_word(bytes, 48),
        };
        assert(order.wire(endianness()) =~= bytes@);
        Ok(order)
    }
}

/// The name of an order side.
pub open spec fn side_text(side: u8) -> Seq<char> {
    if side == 0 {
        "BUY"@
    } else {
        "SELL"@
    }
}

/// A tick takes 40 bytes on the wire, and its bytes tell it apart from every
/// other tick: reading back what was written gives the same tick.
pub proof fn law_tick_round_trip(order: Endian, written: MarketTick, read: MarketTick)
    ensures
        written.wire(order).len() == TICK_LEN,
        read.wire(order) == written.wire(order) ==> read == written,
{
    if read.wire(order) == written.wire(order) {
        let a = read.wire(order);
        let b = written.wire(order);
        assert(read.symbol@ =~= a.subrange(0, 8));
        assert(written.symbol@ =~= b.subrange(0, 8));
        lemma_same_word(order, a, read.bid.bits, written.bid.bits, 8);
        lemma_same_word(order, a, read.ask.bits, written.ask.bits, 16);
        lemma_same_word(order, a, read.timestamp_ns, written.timestamp_ns, 24);
        lemma_same_word(order, a, read.seq, written.seq, 32);
        assert(read.symbol =~= written.symbol);
    }
}

/// An order takes 56 bytes on the wire, and its bytes tell it apart from every
/// other order: reading back what was written gives the same order.
pub proof fn law_order_round_trip(order: Endian, written: OrderSignal, read: OrderSignal)
    ensures
        written.wire(order).len() == ORDER_LEN,
        read.wire(order) == written.wire(order) ==> read == written,
{
    if read.wire(order) == written.wire(order) {
        let a = read.wire(order);
        let b = written.wire(order);
        assert(read.symbol@ =~= a.subrange(0, 8));
        assert(written.symbol@ =~= b.subrange(0, 8));
        assert(a[8] == read.side && b[8] == written.side);
        assert(read._pad@ =~= a.subrange(9, 16));
        assert(written._pad@ =~= b.subrange(9, 16));
        lemma_same_word(order, a, read.quantity.bits, written.quantity.bits, 16);
        lemma_same_word(order, a, read.limit_price.bits, written.limit_price.bits, 24);
        lemma_same_word(order, a, read.signal_ns, written.signal_ns, 32);
        lemma_same_word(order, a, read.tick_ns, written.tick_ns, 40);
        lemma_same_word(order, a, read.seq, written.seq, 48);
        assert(read.symbol =~= written.symbol);
        assert(read._pad =~= written._pad);
    }
}

/// Words that stand at the same place of the same bytes are equal.
proof fn lemma_same_word(order: Endian, bytes: Seq<u8>, a: u64, b: u64, at: int)
    requires
        0 <= at <= bytes.len() - 8,
        bytes.subrange(at, at + 8) =~= crate::wire::word_bytes(order, a),
        bytes.subrange(at, at + 8) =~= crate::wire::word_bytes(order, b),
    ensures
        a == b,
{
    crate::wire::lemma_word_bytes_injective(order, a, b);
}

/// Where the parts of a tick stand: the symbol in front, then bid, ask, timestamp
/// and sequence number, eight bytes each.
pub proof fn law_tick_layout(order: Endian, tick: MarketTick)
    ensures
        ({
            let bytes = tick.wire(order);
            &&& bytes.len() == 40
            &&& bytes.subrange(0, 8) == tick.symbol@
            &&& crate::wire::word_at(order, bytes, 8) == tick.bid.bits
            &&& crate::wire::word_at(order, bytes, 16) == tick.ask.bits
            &&& crate::wire::word_at(order, bytes, 24) == tick.timestamp_ns
            &&& crate::wire::word_at(order, bytes, 32) == tick.seq
        }),
{
    let bytes = tick.wire(order);
    assert(bytes.subrange(0, 8) =~= tick.symbol@);
    lemma_word_in_place(order, bytes, tick.bid.bits, 8);
    lemma_word_in_place(order, bytes, tick.ask.bits, 16);
    lemma_word_in_place(order, bytes, tick.timestamp_ns, 24);
    lemma_word_in_place(order, bytes, tick.seq, 32);
}

/// Where the parts of an order stand: the symbol in front, the side and seven bytes
/// of padding, then quantity, limit price, signal time, tick time and sequence
/// number, eight bytes each.
pub proof fn law_order_layout(order: Endian, signal: OrderSignal)
    ensures
        ({
            let bytes = signal.wire(order);
            &&& bytes.len() == 56
            &&& bytes.subrange(0, 8) == signal.symbol@
            &&& bytes[8] == signal.side
            &&& bytes.subrange(9, 16) == signal._pad@
            &&& crate::wire::word_at(order, bytes, 16) == signal.quantity.bits
            &&& crate::wire::word_at(order, bytes, 24) == signal.limit_price.bits
            &&& crate::wire::word_at(order, bytes, 32) == signal.signal_ns
            &&& crate::wire::word_at(order, bytes, 40) == signal.tick_ns
            &&& crate::wire::word_at(order, bytes, 48) == signal.seq
        }),
{
    let bytes = signal.wire(order);
    assert(bytes.subrange(0, 8) =~= signal.symbol@);
    assert(bytes.subrange(9, 16) =~= signal._pad@);
    lemma_word_in_place(order, bytes, signal.quantity.bits, 16);
    lemma_word_in_place(order, bytes, signal.limit_price.bits, 24);
    lemma_word_in_place(order, bytes, signal.signal_ns, 32);
    lemma_word_in_place(order, bytes, signal.tick_ns, 40);
    lemma_word_in_place(order, bytes, signal.seq, 48);
}

/// A word is read where its bytes stand.
proof fn lemma_word_in_place(order: Endian, bytes: Seq<u8>, word: u64, at: int)
    requires
        0 <= at <= bytes.len() - 8,
        bytes.subrange(at, at + 8) =~= crate::wire::word_bytes(order, word),
    ensures
        crate::wire::word_at(order, bytes, at) == word,
{
    crate::wire::law_word_bytes_stand_for_the_word(order, word);
    assert(crate::wire::word_bytes(order, word).subrange(0, 8) =~= bytes.subrange(at, at + 8));
}

/// Side 0 buys, every other side sells.
pub proof fn law_side_zero_buys(side: u8)
    ensures
        side == 0 ==> side_text(side) == "BUY"@,
        side != 0 ==> side_text(side) == "SELL"@,
{
}

} // verus!
