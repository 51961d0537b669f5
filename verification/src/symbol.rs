//! Instrument symbols: eight bytes of UTF-8 text, padded with zero bytes.

use vstd::prelude::*;
use vstd::slice::slice_subrange;
use vstd::utf8::{
    char_is_scalar, char_u32_cast, decode_utf8, decode_utf8_encode_utf8, encode_scalar,
    encode_utf8, encode_utf8_decode_utf8, encode_utf8_valid_utf8, has_width_1_encoding,
    has_width_2_encoding, last_continuation_byte, leading_byte_width_1, leading_byte_width_2,
    leading_byte_width_3, leading_byte_width_4, second_last_continuation_byte,
    third_last_continuation_byte, valid_utf8,
};

verus! {

/// Bytes of a symbol field.
pub const SYMBOL_LEN: usize = 8;

/// The first eight of `bytes`, filled up with zero bytes.
pub open spec fn packed(bytes: Seq<u8>) -> Seq<u8> {
    Seq::new(SYMBOL_LEN as nat, |i: int| if i < bytes.len() { bytes[i] } else { 0u8 })
}

/// Position of the first zero byte at or after `from`, or the length.
pub open spec fn text_end(symbol: Seq<u8>, from: int) -> int
    decreases symbol.len() - from,
{
    if from >= symbol.len() {
        symbol.len() as int
    } else if symbol[from] == 0 {
        from
    } else {
        text_end(symbol, from + 1)
    }
}

/// The text of a symbol field: what stands before the first zero byte, or a
/// question mark where that is not UTF-8.
pub open spec fn symbol_text(symbol: Seq<u8>) -> Seq<char> {
    let text = symbol.take(text_end(symbol, 0));
    if valid_utf8(text) {
        decode_utf8(text)
    } else {
        seq!['?']
    }
}

/// Every byte behind the first zero byte is zero too.
pub open spec fn zero_padded(symbol: Seq<u8>) -> bool {
    forall|i: int| text_end(symbol, 0) <= i < symbol.len() ==> symbol[i] == 0
}

/// `std::str::from_utf8`, with its error dropped: the text that the bytes
/// encode, exactly where they are well-formed UTF-8.
#[verifier::external_body]
fn utf8_text<'a>(bytes: &'a [u8]) -> (r: Option<&'a str>)
    ensures
        r is Some == valid_utf8(bytes@),
        r matches Some(text) ==> text@ == decode_utf8(bytes@),
{
    std::str::from_utf8(bytes).ok()
}

/// The symbol field that holds `s`: its first eight bytes, zero-padded.
pub fn symbol_bytes(s: &str) -> (r: [u8; 8])
    ensures
        r@ == packed(encode_utf8(s@)),
{
    let mut buf: [u8; 8] = [0u8; 8];
    let bytes = s.as_bytes();
    let len: usize = if bytes.len() < SYMBOL_LEN {
        bytes.len()
    } else {
        SYMBOL_LEN
    };
    let mut i: usize = 0;
    while i < len
        invariant
            i <= len,
            len <= bytes@.len(),
            len <= SYMBOL_LEN,
            buf@.len() == SYMBOL_LEN,
            forall|k: int| 0 <= k < i ==> buf@[k] == bytes@[k],
            forall|k: int| i <= k < SYMBOL_LEN ==> buf@[k] == 0,
        decreases len - i,
    {
        buf[i] = bytes[i];
        i = i + 1;
    }
    assert(buf@ =~= packed(encode_utf8(s@)));
    buf
}

/// The text that a symbol field holds.
pub fn text_of_symbol<'a>(symbol: &'a [u8; 8]) -> (r: &'a str)
    ensures
        r@ == symbol_text(symbol@),
{
    let mut end: usize = 0;
    while end < SYMBOL_LEN && symbol[end] != 0
        invariant
            end <= SYMBOL_LEN,
            symbol@.len() == SYMBOL_LEN,
            text_end(symbol@, end as int) == text_end(symbol@, 0),
        decreases SYMBOL_LEN - end,
    {
        end = end + 1;
    }
    let text = slice_subrange(symbol.as_slice(), 0, end);
    assert(text@ =~= symbol@.take(text_end(symbol@, 0)));
    match utf8_text(text) {
        Some(t) => t,
        None => {
            proof {
                reveal_strlit("?");
            }
            assert("?"@ =~= seq!['?']);
            "?"
        },
    }
}

/// What `text_end` finds.
proof fn lemma_text_end(symbol: Seq<u8>, from: int)
    requires
        0 <= from <= symbol.len(),
    ensures
        from <= text_end(symbol, from) <= symbol.len(),
        forall|i: int| from <= i < text_end(symbol, from) ==> symbol[i] != 0,
        text_end(symbol, from) < symbol.len() ==> symbol[text_end(symbol, from)] == 0,
    decreases symbol.len() - from,
{
    if from < symbol.len() && symbol[from] != 0 {
        lemma_text_end(symbol, from + 1);
    }
}

/// Text without zero bytes ends where the padding starts.
proof fn lemma_packed_text(bytes: Seq<u8>)
    requires
        forall|i: int| 0 <= i < bytes.len() ==> bytes[i] != 0,
    ensures
        packed(bytes).take(text_end(packed(bytes), 0)) == bytes.take(
            if bytes.len() < SYMBOL_LEN { bytes.len() as int } else { SYMBOL_LEN as int },
        ),
{
    let symbol = packed(bytes);
    lemma_text_end(symbol, 0);
    let end = text_end(symbol, 0);
    let kept = if bytes.len() < SYMBOL_LEN { bytes.len() as int } else { SYMBOL_LEN as int };
    if end < kept {
        assert(symbol[end] == bytes[end]);
    }
    if kept < end {
        assert(symbol[kept] == 0);
    }
    assert(symbol.take(end) =~= bytes.take(kept));
}

proof fn lemma_narrow_scalar_nonzero(v: u32)
    by (bit_vector)
    requires
        v != 0,
        has_width_1_encoding(v) || has_width_2_encoding(v),
    ensures
        has_width_1_encoding(v) ==> leading_byte_width_1(v) != 0,
        has_width_2_encoding(v) ==> leading_byte_width_2(v) != 0 && last_continuation_byte(v) != 0,
{
}

proof fn lemma_wide_scalar_nonzero(v: u32)
    by (bit_vector)
    ensures
        leading_byte_width_3(v) != 0,
        leading_byte_width_4(v) != 0,
        last_continuation_byte(v) != 0,
        second_last_continuation_byte(v) != 0,
        third_last_continuation_byte(v) != 0,
{
}

/// Only the NUL character has a zero byte in its encoding.
proof fn lemma_encoding_nonzero(chars: Seq<char>)
    requires
        !chars.contains('\0'),
    ensures
        forall|i: int| 0 <= i < encode_utf8(chars).len() ==> encode_utf8(chars)[i] != 0,
    decreases chars.len(),
{
    if chars.len() > 0 {
        let rest = chars.drop_first();
        assert(!rest.contains('\0')) by {
            if rest.contains('\0') {
                let k = choose|k: int| 0 <= k < rest.len() && rest[k] == '\0';
                assert(chars[k + 1] == '\0');
            }
        }
        lemma_encoding_nonzero(rest);
        let c = chars[0];
        assert(chars.contains(c));
        char_is_scalar(c);
        let v = c as u32;
        char_u32_cast(c, v);
        assert(v != 0);
        let head = encode_scalar(v);
        assert(forall|i: int| 0 <= i < head.len() ==> head[i] != 0) by {
            if has_width_1_encoding(v) || has_width_2_encoding(v) {
                lemma_narrow_scalar_nonzero(v);
            } else {
                lemma_wide_scalar_nonzero(v);
            }
        }
        let tail = encode_utf8(rest);
        assert(encode_utf8(chars) == head + tail);
        assert forall|i: int| 0 <= i < (head + tail).len() implies (head + tail)[i] != 0 by {
            if i >= head.len() {
                assert((head + tail)[i] == tail[i - head.len()]);
            }
        }
    }
}

/// A symbol of at most eight bytes, none of them NUL, is read back as it was
/// packed.
pub proof fn law_symbol_round_trip(s: Seq<char>)
    requires
        encode_utf8(s).len() <= SYMBOL_LEN,
        !s.contains('\0'),
    ensures
        symbol_text(packed(encode_utf8(s))) == s,
{
    let bytes = encode_utf8(s);
    lemma_encoding_nonzero(s);
    lemma_packed_text(bytes);
    assert(bytes.take(bytes.len() as int) =~= bytes);
    encode_utf8_valid_utf8(s);
    encode_utf8_decode_utf8(s);
}

/// Of a longer symbol without NUL the first eight bytes are read back; a
/// character that they cut in two turns the text into a question mark.
pub proof fn law_long_symbol_is_cut(s: Seq<char>)
    requires
        encode_utf8(s).len() > SYMBOL_LEN,
        !s.contains('\0'),
    ensures
        symbol_text(packed(encode_utf8(s))) == ({
            let kept = encode_utf8(s).take(SYMBOL_LEN as int);
            if valid_utf8(kept) { decode_utf8(kept) } else { seq!['?'] }
        }),
{
    lemma_encoding_nonzero(s);
    lemma_packed_text(encode_utf8(s));
}

/// Packing the text of a zero-padded UTF-8 symbol field gives the field back.
pub proof fn law_symbol_field_round_trip(symbol: Seq<u8>)
    requires
        symbol.len() == SYMBOL_LEN,
        zero_padded(symbol),
        valid_utf8(symbol.take(text_end(symbol, 0))),
    ensures
        packed(encode_utf8(symbol_text(symbol))) == symbol,
{
    lemma_text_end(symbol, 0);
    let text = symbol.take(text_end(symbol, 0));
    decode_utf8_encode_utf8(text);
    assert(packed(text) =~= symbol);
}

/// A symbol field has eight bytes: the first bytes of the text as they are, and
/// zero bytes behind them.
pub proof fn law_symbol_field_keeps_the_first_bytes(bytes: Seq<u8>)
    ensures
        packed(bytes).len() == 8,
        forall|i: int| 0 <= i < 8 && i < bytes.len() ==> packed(bytes)[i] == bytes[i],
        forall|i: int| bytes.len() <= i < 8 ==> packed(bytes)[i] == 0,
{
}

/// The text of a symbol field is the one whose encoding stands in front of the
/// first zero byte, `n` bytes long, or a question mark where that is the encoding
/// of no text.
pub proof fn law_symbol_text_is_what_stands_in_front(symbol: Seq<u8>, n: int, s: Seq<char>)
    requires
        0 <= n <= symbol.len(),
        forall|i: int| 0 <= i < n ==> symbol[i] != 0,
        n < symbol.len() ==> symbol[n] == 0,
    ensures
        symbol.subrange(0, n) == encode_utf8(s) ==> symbol_text(symbol) == s,
        (forall|t: Seq<char>| symbol.subrange(0, n) != #[trigger] encode_utf8(t)) ==> symbol_text(
            symbol,
        ) == seq!['?'],
{
    lemma_text_end(symbol, 0);
    let end = text_end(symbol, 0);
    assert(end == n) by {
        if end < n {
            assert(symbol[end] != 0);
        }
        if n < end {
            assert(symbol[n] != 0);
        }
    }
    let text = symbol.take(end);
    assert(text =~= symbol.subrange(0, n));
    if text == encode_utf8(s) {
        encode_utf8_valid_utf8(s);
        encode_utf8_decode_utf8(s);
    }
    if valid_utf8(text) {
        decode_utf8_encode_utf8(text);
    }
}

} // verus!
