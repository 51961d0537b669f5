use hft_pipeline::market::{MarketTick, OrderSignal};
use hft_pipeline::price::Price;
use hft_pipeline::symbol::{symbol_bytes, text_of_symbol};

#[test]
fn symbol_roundtrip() {
    let sym = symbol_bytes("BTCUSD");
    let mut tick = MarketTick::zeroed();
    tick.symbol = sym;
    assert_eq!(tick.symbol_str(), "BTCUSD");
}

#[test]
fn symbol_is_zero_padded() {
    assert_eq!(symbol_bytes("BTCUSD"), *b"BTCUSD\0\0");
    assert_eq!(symbol_bytes(""), [0u8; 8]);
    assert_eq!(text_of_symbol(&[0u8; 8]), "");
}

#[test]
fn symbol_of_eight_bytes_fills_the_field() {
    let sym = symbol_bytes("ABCDEFGH");
    assert_eq!(sym, *b"ABCDEFGH");
    assert_eq!(text_of_symbol(&sym), "ABCDEFGH");
}

#[test]
fn long_symbol_is_cut() {
    let sym = symbol_bytes("ABCDEFGHIJ");
    assert_eq!(sym, *b"ABCDEFGH");
    assert_eq!(text_of_symbol(&sym), "ABCDEFGH");
}

#[test]
fn cut_character_gives_question_mark() {
    // seven ASCII bytes, then a two-byte character
    let sym = symbol_bytes("ABCDEFG\u{e9}");
    assert_eq!(sym[7], 0xc3);
    assert_eq!(text_of_symbol(&sym), "?");
}

#[test]
fn non_ascii_symbol_round_trips() {
    let sym = symbol_bytes("\u{20ac}USD");
    assert_eq!(text_of_symbol(&sym), "\u{20ac}USD");
    let sym = symbol_bytes("\u{1f4b0}x");
    assert_eq!(text_of_symbol(&sym), "\u{1f4b0}x");
}

#[test]
fn text_ends_at_first_zero_byte() {
    assert_eq!(text_of_symbol(b"AB\0CD\0\0\0"), "AB");
    assert_eq!(text_of_symbol(&symbol_bytes("A\0B")), "A");
}

#[test]
fn invalid_utf8_gives_question_mark() {
    assert_eq!(text_of_symbol(&[0xff, b'A', 0, 0, 0, 0, 0, 0]), "?");
    assert_eq!(text_of_symbol(&[0xff; 8]), "?");
}

#[test]
fn padded_field_is_rebuilt_from_its_text() {
    let field = *b"ETHUSDT\0";
    assert_eq!(symbol_bytes(text_of_symbol(&field)), field);
}

#[test]
fn order_symbol_and_side() {
    let mut order = OrderSignal {
        symbol: symbol_bytes("ETHUSD"),
        side: 0,
        _pad: [0u8; 7],
        quantity: Price { bits: 0 },
        limit_price: Price { bits: 0 },
        signal_ns: 0,
        tick_ns: 0,
        seq: 0,
    };
    assert_eq!(order.symbol_str(), "ETHUSD");
    assert_eq!(order.side_str(), "BUY");
    order.side = 1;
    assert_eq!(order.side_str(), "SELL");
    order.side = 7;
    assert_eq!(order.side_str(), "SELL");
    order.symbol = [0x80; 8];
    assert_eq!(order.symbol_str(), "?");
}
