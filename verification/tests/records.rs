use hft_pipeline::clock::{now_ns, timestamp_ns, ClockBeforeEpoch};
use hft_pipeline::market::{MarketTick, OrderSignal, PayloadSize, ORDER_LEN, TICK_LEN};
use hft_pipeline::price::Price;
use hft_pipeline::symbol::symbol_bytes;

fn price(x: f64) -> Price {
    Price { bits: x.to_bits() }
}

fn tick() -> MarketTick {
    MarketTick {
        symbol: symbol_bytes("BTCUSD"),
        bid: price(29_990.0),
        ask: price(30_010.0),
        timestamp_ns: 1_700_000_000_123_456_789,
        seq: 42,
    }
}

fn order() -> OrderSignal {
    OrderSignal {
        symbol: symbol_bytes("BTCUSD"),
        side: 1,
        _pad: [1, 2, 3, 4, 5, 6, 7],
        quantity: price(0.01),
        limit_price: price(29_990.0),
        signal_ns: 2000,
        tick_ns: 1000,
        seq: 0x0102_0304_0506_0708,
    }
}

#[test]
fn pod_sizes() {
    // MarketTick: 8+8+8+8+8 = 40 bytes
    assert_eq!(std::mem::size_of::<MarketTick>(), 40);
    // OrderSignal: 8+1+7+8+8+8+8+8 = 56 bytes
    assert_eq!(std::mem::size_of::<OrderSignal>(), 56);
}

#[test]
fn wire_sizes() {
    assert_eq!(TICK_LEN, 40);
    assert_eq!(ORDER_LEN, 56);
    assert_eq!(tick().to_bytes().len(), 40);
    assert_eq!(order().to_bytes().len(), 56);
}

#[test]
fn tick_bytes_are_the_fields_in_native_order() {
    let bytes = tick().to_bytes();
    assert_eq!(&bytes[0..8], b"BTCUSD\0\0");
    assert_eq!(&bytes[8..16], &29_990.0f64.to_ne_bytes());
    assert_eq!(&bytes[16..24], &30_010.0f64.to_ne_bytes());
    assert_eq!(&bytes[24..32], &1_700_000_000_123_456_789u64.to_ne_bytes());
    assert_eq!(&bytes[32..40], &42u64.to_ne_bytes());
}

#[test]
fn order_bytes_are_the_fields_in_native_order() {
    let bytes = order().to_bytes();
    assert_eq!(&bytes[0..8], b"BTCUSD\0\0");
    assert_eq!(bytes[8], 1);
    assert_eq!(&bytes[9..16], &[1, 2, 3, 4, 5, 6, 7]);
    assert_eq!(&bytes[16..24], &0.01f64.to_ne_bytes());
    assert_eq!(&bytes[24..32], &29_990.0f64.to_ne_bytes());
    assert_eq!(&bytes[32..40], &2000u64.to_ne_bytes());
    assert_eq!(&bytes[40..48], &1000u64.to_ne_bytes());
    assert_eq!(&bytes[48..56], &0x0102_0304_0506_0708u64.to_ne_bytes());
}

#[test]
fn tick_round_trip() {
    assert_eq!(MarketTick::from_bytes(&tick().to_bytes()), Ok(tick()));
}

#[test]
fn order_round_trip() {
    assert_eq!(OrderSignal::from_bytes(&order().to_bytes()), Ok(order()));
}

#[test]
fn unaligned_payload_is_read() {
    let mut shifted = vec![0u8];
    shifted.extend_from_slice(&order().to_bytes());
    assert_eq!(OrderSignal::from_bytes(&shifted[1..]), Ok(order()));
    let mut shifted = vec![0u8; 3];
    shifted.extend_from_slice(&tick().to_bytes());
    assert_eq!(MarketTick::from_bytes(&shifted[3..]), Ok(tick()));
}

#[test]
fn any_bytes_of_the_right_length_are_a_record() {
    let bytes: Vec<u8> = (0u8..40).collect();
    assert_eq!(MarketTick::from_bytes(&bytes).unwrap().to_bytes(), bytes);
    let bytes: Vec<u8> = (100u8..156).collect();
    assert_eq!(OrderSignal::from_bytes(&bytes).unwrap().to_bytes(), bytes);
}

#[test]
fn payload_of_wrong_length_is_refused() {
    assert_eq!(MarketTick::from_bytes(&[]), Err(PayloadSize { len: 0 }));
    assert_eq!(MarketTick::from_bytes(&[0u8; 39]), Err(PayloadSize { len: 39 }));
    assert_eq!(MarketTick::from_bytes(&[0u8; 56]), Err(PayloadSize { len: 56 }));
    assert_eq!(OrderSignal::from_bytes(&[0u8; 40]), Err(PayloadSize { len: 40 }));
    assert_eq!(OrderSignal::from_bytes(&[0u8; 57]), Err(PayloadSize { len: 57 }));
}

#[test]
fn zeroed_tick_is_all_zero_bytes() {
    assert_eq!(MarketTick::zeroed().to_bytes(), vec![0u8; 40]);
}

#[test]
fn timestamp_is_the_low_word_of_the_nanoseconds() {
    assert_eq!(timestamp_ns(Some(0)), Ok(0));
    assert_eq!(timestamp_ns(Some(u64::MAX as u128)), Ok(u64::MAX));
    assert_eq!(timestamp_ns(Some(u64::MAX as u128 + 6)), Ok(5));
    assert_eq!(timestamp_ns(None), Err(ClockBeforeEpoch));
}

#[test]
fn wall_clock_is_in_this_age() {
    let a = now_ns().unwrap();
    let b = now_ns().unwrap();
    // after 2020, before 2400
    assert!(a > 1_577_836_800_000_000_000);
    assert!(a < 13_569_465_600_000_000_000);
    assert!(b.abs_diff(a) < 60_000_000_000);
}
