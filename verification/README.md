# hft_pipeline

The core of a low-latency trading pipeline, verified with Verus: the wire format
of its two records, the momentum strategy, latency statistics, the line protocol
writer with its reconnect logic, and the decisions of the feed, the handler, the
gateway, the recorders and the ping-pong benchmark.

```
src/
  market.rs          MarketTick and OrderSignal, their bytes on the wire
  symbol.rs          eight-byte instrument symbols
  wire.rs            machine words as bytes
  price.rs           binary64 numbers as bit patterns: finiteness, comparison
  price_text.rs      prices in decimal, rounded to eight places
  text.rs            decimal numbers, alignment, trimming
  clock.rs           wall-clock timestamps
  latency.rs         spans, quantiles, reporting windows
  ilp.rs             line protocol writer and its flush state machine
  influx.rs          InfluxDB requests and metric lines
  tick_recorder.rs   recording of ticks
  order_recorder.rs  recording of orders and their latencies
  strategy.rs        moving-average momentum strategy
  feed.rs            exchange feed simulator
  md_handler.rs      network to local bus
  order_gateway.rs   local bus to network
  bench.rs           ping-pong benchmark
app/                 the programs: network, shared memory, clocks, floating point
tests/               tests of the library
```

Verified code never computes with floating-point numbers.  A price is its bit
pattern; the programs in `app/` do the arithmetic on prices (mid price, spread,
moving average) and hand the results in.
