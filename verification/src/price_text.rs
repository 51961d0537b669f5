//! Prices in decimal, rounded to eight places.

use vstd::arithmetic::div_mod::{
    lemma_basic_div, lemma_fundamental_div_mod, lemma_fundamental_div_mod_converse,
    lemma_small_mod,
};
use vstd::arithmetic::power2::{
    lemma2_to64, lemma_pow2_adds, lemma_pow2_pos, lemma_pow2_strictly_increases,
    lemma_pow2_unfold, pow2,
};
use vstd::prelude::*;

use crate::price::{Price, FRACTION_SPAN, INFINITY_BITS, SIGN_BIT};
use crate::text::{digit_text, push_decimal};

verus! {

/// Units of the last place in 1.
pub const PLACES: u64 = 100_000_000;

/// Number of places behind the point.
pub const PLACE_COUNT: u64 = 8;

/// Binary places of the smallest positive number.
pub const BINARY_PLACES: u64 = 1074;

/// The whole number nearest to `num / den`; of two equally near, the even one.
pub open spec fn nearest(num: nat, den: nat) -> nat {
    let below = num / den;
    let rest = num % den;
    if 2 * rest > den || (2 * rest == den && below % 2 == 1) {
        below + 1
    } else {
        below
    }
}

/// The whole number nearest to `num / den`; of two equally near, the even one.
pub(crate) fn nearest_of(num: u128, den: u128) -> (r: u128)
    requires
        0 < den <= 0x1_0000_0000_0000_0000_0000_0000,
        num < u128::MAX,
    ensures
        r == nearest(num as nat, den as nat),
{
    let below: u128 = num / den;
    let rest: u128 = num % den;
    assert(below <= num) by (nonlinear_arith)
        requires
            below == num / den,
            den > 0,
    ;
    if 2 * rest > den || (2 * rest == den && below % 2 == 1) {
        below + 1
    } else {
        below
    }
}

/// A quotient of at most `most` is nearest to at most `most`.
pub proof fn lemma_nearest_at_most(num: nat, den: nat, most: nat)
    requires
        den > 0,
        num <= den * most,
    ensures
        nearest(num, den) <= most,
{
    let below = (num / den) as int;
    let rest = (num % den) as int;
    lemma_fundamental_div_mod(num as int, den as int);
    assert(below < most || (below == most && rest == 0)) by (nonlinear_arith)
        requires
            num == den * below + rest,
            num <= den * most,
            0 <= rest < den,
    ;
}

/// The size of a finite number in units of the last place.
pub open spec fn in_places(price: Price) -> nat {
    nearest(
        crate::price::scaled_magnitude(price.magnitude()) * PLACES as nat,
        pow2(BINARY_PLACES as nat),
    )
}

/// The last `width` decimal digits of a number, leading zeros included.
pub open spec fn padded(n: nat, width: nat) -> Seq<char>
    decreases width,
{
    if width == 0 {
        seq![]
    } else {
        padded(n / 10, (width - 1) as nat).push(crate::text::digit_char(n % 10))
    }
}

/// A number in decimal with eight places.
pub open spec fn price_text(price: Price) -> Seq<char> {
    let sign = if price.negative() { "-"@ } else { ""@ };
    if price.nan() {
        "NaN"@
    } else if !price.finite() {
        sign + "inf"@
    } else {
        sign + crate::text::decimal(in_places(price) / PLACES as nat) + "."@ + padded(
            in_places(price) % PLACES as nat,
            PLACE_COUNT as nat,
        )
    }
}

/// The number that decimal digits stand for, least significant digit first.
spec fn digits_value(digits: Seq<u8>) -> nat
    decreases digits.len(),
{
    if digits.len() == 0 {
        0
    } else {
        digits[0] as nat + 10 * digits_value(digits.drop_first())
    }
}

/// Decimal digits of a positive number, least significant digit first.
spec fn proper_digits(digits: Seq<u8>) -> bool {
    &&& digits.len() > 0
    &&& digits.last() != 0
    &&& forall|i: int| 0 <= i < digits.len() ==> digits[i] < 10
}

/// Ten to the power of `n`.
spec fn pow10(n: nat) -> nat
    decreases n,
{
    if n == 0 {
        1
    } else {
        10 * pow10((n - 1) as nat)
    }
}

proof fn lemma_times_pow10_0(n: nat)
    ensures
        pow10(0) * n == n,
{
    assert(1 * n == n);
}

proof fn lemma_digits_value_push(digits: Seq<u8>, digit: u8)
    ensures
        digits_value(digits.push(digit)) == digits_value(digits) + pow10(digits.len())
            * digit as nat,
    decreases digits.len(),
{
    let longer = digits.push(digit);
    if digits.len() == 0 {
        assert(longer.drop_first() =~= digits);
        assert(digits_value(longer.drop_first()) == 0);
        lemma_times_pow10_0(digit as nat);
    } else {
        let rest = digits.drop_first();
        lemma_digits_value_push(rest, digit);
        assert(longer.drop_first() =~= rest.push(digit));
        let weight = pow10(rest.len());
        assert(10 * (weight * digit as nat) == (10 * weight) * digit as nat) by (nonlinear_arith);
    }
}

/// The decimal text of a number shows its digits from the most significant one
/// down.
proof fn lemma_digits_text(digits: Seq<u8>)
    requires
        proper_digits(digits),
    ensures
        digits_value(digits) > 0,
        crate::text::decimal(digits_value(digits)) == Seq::new(
            digits.len(),
            |i: int| crate::text::digit_char(digits[digits.len() - 1 - i] as nat),
        ),
    decreases digits.len(),
{
    let value = digits_value(digits);
    let shown = Seq::new(
        digits.len(),
        |i: int| crate::text::digit_char(digits[digits.len() - 1 - i] as nat),
    );
    let rest = digits.drop_first();
    if rest.len() == 0 {
        assert(digits_value(rest) == 0);
        assert(crate::text::decimal(value) =~= shown);
    } else {
        assert(rest.last() == digits.last());
        lemma_digits_text(rest);
        assert(value / 10 == digits_value(rest) && value % 10 == digits[0]);
        assert(crate::text::decimal(value) =~= shown);
    }
}

/// The decimal digits of a positive number.
fn digits_of(n: u64) -> (r: Vec<u8>)
    requires
        n > 0,
    ensures
        proper_digits(r@),
        digits_value(r@) == n,
{
    let mut digits: Vec<u8> = Vec::new();
    let mut rest: u64 = n;
    proof {
        lemma_times_pow10_0(rest as nat);
    }
    while rest > 0
        invariant
            n > 0,
            digits_value(digits@) + pow10(digits@.len()) * rest as nat == n,
            forall|i: int| 0 <= i < digits@.len() ==> digits@[i] < 10,
            rest == 0 ==> digits@.len() > 0 && digits@.last() != 0,
        decreases rest,
    {
        let digit: u8 = (rest % 10) as u8;
        proof {
            lemma_digits_value_push(digits@, digit);
            let weight = pow10(digits@.len());
            let r = rest as nat;
            assert(weight * r == weight * (r % 10) + (10 * weight) * (r / 10)) by (nonlinear_arith)
                requires
                    r == 10 * (r / 10) + r % 10,
            ;
        }
        digits.push(digit);
        rest = rest / 10;
    }
    proof {
        let weight = pow10(digits@.len());
        assert(weight * 0 == 0) by (nonlinear_arith);
    }
    digits
}

/// Doubles a number in decimal digits.
fn doubled(digits: &Vec<u8>) -> (r: Vec<u8>)
    requires
        proper_digits(digits@),
    ensures
        proper_digits(r@),
        digits_value(r@) == 2 * digits_value(digits@),
{
    let n: usize = digits.len();
    let mut out: Vec<u8> = Vec::new();
    let mut carry: u8 = 0;
    let mut i: usize = 0;
    assert(digits@.skip(0) =~= digits@);
    proof {
        lemma_times_pow10_0(2 * digits_value(digits@));
    }
    while i < n
        invariant
            n == digits@.len(),
            i <= n,
            proper_digits(digits@),
            out@.len() == i,
            carry <= 1,
            forall|k: int| 0 <= k < i ==> out@[k] < 10,
            0 < i && carry == 0 && digits@[i - 1] != 0 ==> out@[i - 1] != 0,
            digits_value(out@) + pow10(i as nat) * (carry as nat + 2 * digits_value(
                digits@.skip(i as int),
            )) == 2 * digits_value(digits@),
        decreases n - i,
    {
        let sum: u8 = 2 * digits[i] + carry;
        let digit: u8 = sum % 10;
        proof {
            let rest = digits@.skip(i as int);
            assert(rest.drop_first() =~= digits@.skip(i + 1));
            let v = digits_value(digits@.skip(i + 1));
            let w = pow10(i as nat);
            let s = sum as nat;
            lemma_digits_value_push(out@, digit);
            assert(w * (s + 20 * v) == w * (s % 10) + (10 * w) * (s / 10 + 2 * v))
                by (nonlinear_arith)
                requires
                    s == 10 * (s / 10) + s % 10,
            ;
        }
        out.push(digit);
        carry = sum / 10;
        i = i + 1;
    }
    proof {
        assert(digits@.skip(n as int) =~= seq![]);
        let w = pow10(n as nat);
        assert(w * (carry as nat + 2 * 0) == w * carry as nat);
        assert(w * 0 == 0) by (nonlinear_arith);
    }
    if carry > 0 {
        proof {
            lemma_digits_value_push(out@, 1);
        }
        out.push(1);
    }
    out
}

/// Appends `significand * 2^shift` in decimal.
fn push_shifted(buf: &mut String, significand: u64, shift: u64)
    requires
        significand > 0,
    ensures
        final(buf)@ == old(buf)@ + crate::text::decimal(
            significand as nat * pow2(shift as nat),
        ),
{
    let mut digits = digits_of(significand);
    let mut done: u64 = 0;
    proof {
        lemma2_to64();
    }
    while done < shift
        invariant
            done <= shift,
            proper_digits(digits@),
            digits_value(digits@) == significand as nat * pow2(done as nat),
        decreases shift - done,
    {
        digits = doubled(&digits);
        proof {
            lemma_pow2_unfold((done + 1) as nat);
            let w = pow2(done as nat);
            assert(2 * (significand as nat * w) == significand as nat * (2 * w))
                by (nonlinear_arith);
        }
        done = done + 1;
    }
    let ghost whole = crate::text::decimal(digits_value(digits@));
    proof {
        lemma_digits_text(digits@);
    }
    let n: usize = digits.len();
    let mut left: usize = n;
    assert(whole.take(0) =~= seq![]);
    assert(buf@ =~= old(buf)@ + whole.take(0));
    while left > 0
        invariant
            left <= n,
            n == digits@.len() == whole.len(),
            proper_digits(digits@),
            whole == Seq::new(
                digits@.len(),
                |i: int| crate::text::digit_char(digits@[digits@.len() - 1 - i] as nat),
            ),
            buf@ == old(buf)@ + whole.take(n - left),
        decreases left,
    {
        left = left - 1;
        buf.append(digit_text(digits[left] as u64));
        assert(whole.take(n - left) =~= whole.take(n - left - 1).push(whole[n - left - 1]));
        assert(buf@ =~= old(buf)@ + whole.take(n - left));
    }
    assert(whole.take(n as int) =~= whole);
}

/// Appends the last `width` decimal digits of a number.
fn push_padded(buf: &mut String, n: u64, width: u64)
    ensures
        final(buf)@ == old(buf)@ + padded(n as nat, width as nat),
    decreases width,
{
    if width > 0 {
        push_padded(buf, n / 10, width - 1);
        buf.append(digit_text(n % 10));
    }
    assert(buf@ =~= old(buf)@ + padded(n as nat, width as nat));
}

proof fn lemma_nearest_scaled(num: nat, den: nat, factor: nat)
    requires
        den > 0,
        factor > 0,
    ensures
        nearest(num * factor, den * factor) == nearest(num, den),
{
    let below = (num / den) as int;
    let rest = (num % den) as int;
    lemma_fundamental_div_mod(num as int, den as int);
    assert(num * factor == below * (den * factor) + rest * factor) by (nonlinear_arith)
        requires
            num == den * below + rest,
    ;
    assert(0 <= rest * factor < den * factor) by (nonlinear_arith)
        requires
            0 <= rest < den,
            factor > 0,
    ;
    lemma_fundamental_div_mod_converse(
        (num * factor) as int,
        (den * factor) as int,
        below,
        rest * factor,
    );
    assert((2 * (rest * factor) > den * factor) == (2 * rest > den)) by (nonlinear_arith)
        requires
            factor > 0,
    ;
    assert((2 * (rest * factor) == den * factor) == (2 * rest == den)) by (nonlinear_arith)
        requires
            factor > 0,
    ;
}

/// A multiple of the divisor is its own nearest quotient.
proof fn lemma_nearest_exact(quotient: nat, den: nat)
    requires
        den > 0,
    ensures
        nearest(quotient * den, den) == quotient,
{
    lemma_fundamental_div_mod_converse((quotient * den) as int, den as int, quotient as int, 0);
}

/// `significand / 2^shift` in units of the last place.
#[verifier::spinoff_prover]
fn nearest_places(significand: u64, shift: u64) -> (r: u128)
    requires
        significand < 0x20_0000_0000_0000,
        shift > 0,
    ensures
        r == nearest(significand as nat * PLACES as nat, pow2(shift as nat)),
        r <= 0x1_0000_0000_0000_0000_0000,
{
    proof {
        assert(0 <= significand * PLACES < 900_719_925_474_099_200_000_000) by (nonlinear_arith)
            requires
                0 <= significand < 0x20_0000_0000_0000,
                PLACES == 100_000_000,
        ;
    }
    let num: u128 = significand as u128 * PLACES as u128;
    assert(num == significand * PLACES);
    proof {
        lemma_pow2_pos(shift as nat);
        lemma_pow2_81();
    }
    if shift > 80 {
        proof {
            if shift > 81 {
                lemma_pow2_strictly_increases(81, shift as nat);
            }
            lemma_basic_div(num as int, pow2(shift as nat) as int);
            lemma_small_mod(num as nat, pow2(shift as nat));
        }
        return 0;
    }
    let mut den: u128 = 1;
    let mut done: u64 = 0;
    proof {
        lemma2_to64();
        lemma_pow2_strictly_increases(shift as nat, 81);
    }
    while done < shift
        invariant
            done <= shift <= 80,
            den == pow2(done as nat),
            pow2(81) == 0x2_0000_0000_0000_0000_0000,
            pow2(shift as nat) < pow2(81),
        decreases shift - done,
    {
        proof {
            lemma_pow2_unfold((done + 1) as nat);
            if done + 1 < shift {
                lemma_pow2_strictly_increases((done + 1) as nat, shift as nat);
            }
        }
        den = den * 2;
        done = done + 1;
    }
    proof {
        let most = num as nat;
        assert(num as nat <= den as nat * most) by (nonlinear_arith)
            requires
                most == num,
                den >= 1,
        ;
        lemma_nearest_at_most(num as nat, den as nat, most);
    }
    nearest_of(num, den)
}

proof fn lemma_pow2_81()
    ensures
        pow2(81) == 0x2_0000_0000_0000_0000_0000,
{
    lemma2_to64();
    lemma_pow2_adds(64, 17);
}

/// A number is its significand times a power of two.
proof fn lemma_scaled_parts(magnitude: nat, significand: nat, shift: nat)
    requires
        ({
            let exponent = magnitude / FRACTION_SPAN as nat;
            let fraction = magnitude % FRACTION_SPAN as nat;
            if exponent == 0 {
                significand == fraction && shift == 0
            } else {
                significand == FRACTION_SPAN + fraction && shift == exponent - 1
            }
        }),
    ensures
        crate::price::scaled_magnitude(magnitude) == significand * pow2(shift),
{
    if shift == 0 {
        lemma2_to64();
        assert(significand * 1 == significand) by (nonlinear_arith);
    }
}

/// Appends a number in decimal with eight places.
#[verifier::spinoff_prover]
pub fn push_price(buf: &mut String, price: Price)
    ensures
        final(buf)@ == old(buf)@ + price_text(price),
{
    let magnitude: u64 = price.bits % SIGN_BIT;
    if magnitude > INFINITY_BITS {
        buf.append("NaN");
        return;
    }
    let ghost sign = if price.negative() { "-"@ } else { ""@ };
    if price.bits >= SIGN_BIT {
        buf.append("-");
    }
    proof {
        reveal_strlit("");
    }
    assert(buf@ =~= old(buf)@ + sign);
    if magnitude == INFINITY_BITS {
        buf.append("inf");
        assert(buf@ =~= old(buf)@ + price_text(price));
        return;
    }
    let exponent: u64 = magnitude / FRACTION_SPAN;
    let fraction: u64 = magnitude % FRACTION_SPAN;
    let significand: u64 = if exponent == 0 {
        fraction
    } else {
        FRACTION_SPAN + fraction
    };
    let shift: u64 = if exponent == 0 {
        0
    } else {
        exponent - 1
    };
    let ghost scaled = crate::price::scaled_magnitude(price.magnitude());
    let ghost m = significand as nat;
    let ghost unit = pow2(BINARY_PLACES as nat);
    proof {
        lemma_pow2_pos(BINARY_PLACES as nat);
        lemma_scaled_parts(price.magnitude(), m, shift as nat);
    }
    if shift >= BINARY_PLACES {
        let ghost whole = m * pow2((shift - BINARY_PLACES) as nat);
        proof {
            lemma_pow2_adds((shift - BINARY_PLACES) as nat, BINARY_PLACES as nat);
            let w = pow2((shift - BINARY_PLACES) as nat);
            assert((m * (w * unit)) * PLACES as nat == ((m * w) * PLACES as nat) * unit)
                by (nonlinear_arith);
            lemma_nearest_exact(whole * PLACES as nat, unit);
            assert(in_places(price) == whole * PLACES as nat);
        }
        push_shifted(buf, significand, shift - BINARY_PLACES);
        buf.append(".");
        push_padded(buf, 0, PLACE_COUNT);
        assert(buf@ =~= old(buf)@ + price_text(price));
    } else {
        let places: u128 = nearest_places(significand, BINARY_PLACES - shift);
        proof {
            lemma_pow2_adds((BINARY_PLACES - shift) as nat, shift as nat);
            lemma_pow2_pos(shift as nat);
            lemma_pow2_pos((BINARY_PLACES - shift) as nat);
            let w = pow2(shift as nat);
            assert((m * w) * PLACES as nat == (m * PLACES as nat) * w) by (nonlinear_arith);
            lemma_nearest_scaled(m * PLACES as nat, pow2((BINARY_PLACES - shift) as nat), w);
            assert(in_places(price) == places);
        }
        push_decimal(buf, (places / PLACES as u128) as u64);
        buf.append(".");
        push_padded(buf, (places % PLACES as u128) as u64, PLACE_COUNT);
        assert(buf@ =~= old(buf)@ + price_text(price));
    }
}

/// `places` is the size of a price in units of the eighth decimal place, rounded to
/// the nearest whole number, and to the even one of two that are equally near.
pub open spec fn rounded_places(places: int, price: Price) -> bool {
    let unit = pow2(1074) as int;
    let size = if price.scaled() < 0 { -price.scaled() } else { price.scaled() };
    let off = places * unit - size * 100_000_000;
    &&& -unit <= 2 * off <= unit
    &&& 2 * off == unit || 2 * off == -unit ==> places % 2 == 0
}

/// The text shows the price: a minus sign where the sign bit is set, a numeral, a
/// point and eight digits, which together are the rounded size of the price.
pub open spec fn shows_price(text: Seq<char>, price: Price) -> bool {
    let sign = if price.bits >= 0x8000_0000_0000_0000 { seq!['-'] } else { seq![] };
    if price.nan() {
        text == seq!['N', 'a', 'N']
    } else if !price.finite() {
        text == sign + seq!['i', 'n', 'f']
    } else {
        exists|whole: Seq<char>, fraction: Seq<char>|
            {
                &&& text == sign + whole + seq!['.'] + fraction
                &&& #[trigger] crate::text::reads_as(whole, crate::text::value_of(whole) as nat)
                &&& #[trigger] crate::text::digits_only(fraction)
                &&& fraction.len() == 8
                &&& rounded_places(
                    crate::text::value_of(whole) * 100_000_000 + crate::text::value_of(fraction),
                    price,
                )
            }
    }
}

/// What `nearest` finds.
pub proof fn lemma_nearest(num: nat, den: nat)
    requires
        den > 0,
    ensures
        ({
            let off = nearest(num, den) * den - num;
            &&& -den <= 2 * off <= den
            &&& 2 * off == den || 2 * off == -den ==> nearest(num, den) % 2 == 0
        }),
{
    let below = (num / den) as int;
    let rest = (num % den) as int;
    lemma_fundamental_div_mod(num as int, den as int);
    assert(below * den + rest == num) by (nonlinear_arith)
        requires
            num == den * below + rest,
    ;
    assert((below + 1) * den == below * den + den) by (nonlinear_arith);
}

/// What padded digits stand for.
proof fn lemma_padded(n: nat, width: nat)
    requires
        n < pow10(width),
    ensures
        padded(n, width).len() == width,
        crate::text::digits_only(padded(n, width)),
        crate::text::value_of(padded(n, width)) == n,
    decreases width,
{
    let text = padded(n, width);
    if width == 0 {
        assert(crate::text::value_of(text) == 0);
    } else {
        let rest = padded(n / 10, (width - 1) as nat);
        lemma_padded(n / 10, (width - 1) as nat);
        assert(text.drop_last() =~= rest);
        assert forall|i: int| 0 <= i < text.len() implies '0' <= #[trigger] text[i] <= '9' by {
            if i < rest.len() {
                assert(text[i] == rest[i]);
            }
        }
    }
}

/// The text of a price shows the price.
pub proof fn law_price_text_is_nearest(price: Price)
    ensures
        shows_price(price_text(price), price),
{
    reveal_strlit("-");
    reveal_strlit("");
    reveal_strlit("NaN");
    reveal_strlit("inf");
    reveal_strlit(".");
    let sign = if price.negative() { "-"@ } else { ""@ };
    let shown = if price.bits >= 0x8000_0000_0000_0000 { seq!['-'] } else { seq![] };
    assert(sign =~= shown);
    if price.nan() {
        assert("NaN"@ =~= seq!['N', 'a', 'N']);
    } else if !price.finite() {
        assert("inf"@ =~= seq!['i', 'n', 'f']);
    } else {
        let size = crate::price::scaled_magnitude(price.magnitude());
        let places = in_places(price);
        let whole = crate::text::decimal(places / PLACES as nat);
        let fraction = padded(places % PLACES as nat, PLACE_COUNT as nat);
        assert("."@ =~= seq!['.']);
        crate::text::law_decimal_reads_back(places / PLACES as nat);
        reveal_with_fuel(pow10, 9);
        lemma_padded(places % PLACES as nat, PLACE_COUNT as nat);
        lemma_pow2_pos(1074);
        lemma_nearest(size * PLACES as nat, pow2(1074));
        assert(crate::text::value_of(whole) * 100_000_000 + crate::text::value_of(fraction)
            == places);
        assert(rounded_places(places as int, price));
        assert(crate::text::reads_as(whole, crate::text::value_of(whole) as nat));
    }
}

/// The text of a price holds no separator.
pub proof fn lemma_price_plain(price: Price)
    ensures
        crate::reading::plain(price_text(price)),
{
    reveal_strlit("-");
    reveal_strlit("");
    reveal_strlit("NaN");
    reveal_strlit("inf");
    reveal_strlit(".");
    let sign = if price.negative() { "-"@ } else { ""@ };
    if price.finite() {
        let places = in_places(price);
        let whole = crate::text::decimal(places / PLACES as nat);
        let fraction = padded(places % PLACES as nat, PLACE_COUNT as nat);
        crate::text::law_decimal_reads_back(places / PLACES as nat);
        reveal_with_fuel(pow10, 9);
        lemma_padded(places % PLACES as nat, PLACE_COUNT as nat);
        crate::reading::lemma_numeral_plain(whole);
        crate::reading::lemma_numeral_plain(fraction);
        crate::reading::lemma_plain_joined(sign, whole);
        crate::reading::lemma_plain_joined(sign + whole, "."@);
        crate::reading::lemma_plain_joined(sign + whole + "."@, fraction);
    } else {
        crate::reading::lemma_plain_joined(sign, "inf"@);
    }
}

} // verus!
