use hft_pipeline::price::Price;
use hft_pipeline::price_text::push_price;

fn price(x: f64) -> Price {
    Price { bits: x.to_bits() }
}

fn text(x: f64) -> String {
    let mut buf = String::new();
    push_price(&mut buf, price(x));
    buf
}

fn samples() -> Vec<f64> {
    let mut xs = vec![
        0.0,
        -0.0,
        1.0,
        -1.0,
        0.5,
        1.5,
        2.5,
        30_000.0,
        29_999.5,
        30_000.123_456_785,
        0.01,
        0.1,
        1.0 / 3.0,
        1.0 / 512.0,
        3.0 / 512.0,
        5.0 / 512.0,
        1e-8,
        5e-9,
        4.999e-9,
        1.5e-8,
        -2.5e-8,
        9.999_999_995,
        99_999_999.999_999_99,
        1e15,
        9_007_199_254_740_991.0,
        9_007_199_254_740_992.0,
        9_007_199_254_740_993.0,
        1e16,
        1.234e20,
        1e22,
        1e23,
        -7.5e37,
        2f64.powi(127),
        2f64.powi(128),
        1e100,
        f64::MAX,
        f64::MIN,
        f64::MIN_POSITIVE,
        5e-324,
        f64::INFINITY,
        f64::NEG_INFINITY,
    ];
    // a spread of bit patterns over all exponents
    let mut state: u64 = 88_172_645_463_325_252;
    for _ in 0..3000 {
        state ^= state << 13;
        state ^= state >> 7;
        state ^= state << 17;
        xs.push(f64::from_bits(state));
    }
    // ordinary prices
    for i in 0..2000u32 {
        xs.push(f64::from(i) * 0.37 + f64::from(i * i) / 1024.0);
    }
    xs
}

#[test]
fn finiteness_is_that_of_the_number() {
    for x in samples() {
        assert_eq!(price(x).is_finite(), x.is_finite(), "{x:?}");
    }
    assert!(!price(f64::NAN).is_finite());
    assert!(!price(-f64::NAN).is_finite());
}

#[test]
fn comparison_is_that_of_the_numbers() {
    let xs: Vec<f64> = samples().into_iter().take(400).collect();
    for &a in &xs {
        for &b in &xs {
            assert_eq!(price(a).at_or_above(price(b)), a >= b, "{a:?} {b:?}");
        }
        assert!(!price(a).at_or_above(price(f64::NAN)));
        assert!(!price(f64::NAN).at_or_above(price(a)));
    }
    assert!(price(0.0).at_or_above(price(-0.0)));
    assert!(price(-0.0).at_or_above(price(0.0)));
}

#[test]
fn text_is_the_number_at_eight_places() {
    for x in samples() {
        assert_eq!(text(x), format!("{:.8}", x), "{x:?}");
    }
}

#[test]
fn text_of_chosen_prices() {
    assert_eq!(text(30_000.0), "30000.00000000");
    assert_eq!(text(0.01), "0.01000000");
    assert_eq!(text(-1.5), "-1.50000000");
    assert_eq!(text(-0.0), "-0.00000000");
    assert_eq!(text(f64::INFINITY), "inf");
    assert_eq!(text(f64::NEG_INFINITY), "-inf");
    assert_eq!(text(f64::NAN), "NaN");
}

#[test]
fn ties_round_to_the_even_place() {
    // exactly halfway between two places
    assert_eq!(text(1.0 / 512.0), "0.00195312");
    assert_eq!(text(3.0 / 512.0), "0.00585938");
}
