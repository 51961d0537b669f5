//! Machine words as bytes in the byte order of the executing machine.

use vstd::endian::{endianness, Endian};
use vstd::prelude::*;
use vstd::slice::slice_subrange;

verus! {

/// Bytes of a machine word.
pub const WORD_LEN: usize = 8;

/// The bytes of a word, least significant byte first.
pub open spec fn low_first(word: u64) -> Seq<u8> {
    seq![
        (word & 0xff) as u8,
        ((word >> 8) & 0xff) as u8,
        ((word >> 16) & 0xff) as u8,
        ((word >> 24) & 0xff) as u8,
        ((word >> 32) & 0xff) as u8,
        ((word >> 40) & 0xff) as u8,
        ((word >> 48) & 0xff) as u8,
        ((word >> 56) & 0xff) as u8,
    ]
}

/// The bytes of a word as they stand in the memory of a machine of that byte
/// order.
pub open spec fn word_bytes(order: Endian, word: u64) -> Seq<u8> {
    match order {
        Endian::Little => low_first(word),
        Endian::Big => low_first(word).reverse(),
    }
}

/// `bytemuck::bytes_of` on a `u64`: the eight bytes of the word in the order of
/// the executing machine.
#[verifier::external_body]
fn bytes_of_word(word: &u64) -> (r: &[u8])
    ensures
        r@ == word_bytes(endianness(), *word),
{
    bytemuck::bytes_of(word)
}

/// `bytemuck::pod_read_unaligned` to a `u64`: the word whose bytes, in the order
/// of the executing machine, are the given eight.
#[verifier::external_body]
fn word_of_bytes(bytes: &[u8]) -> (r: u64)
    requires
        bytes@.len() == WORD_LEN,
    ensures
        word_bytes(endianness(), r) == bytes@,
{
    bytemuck::pod_read_unaligned(bytes)
}

/// Appends the bytes of `word` to `buf`.
pub(crate) fn push_word(buf: &mut Vec<u8>, word: u64)
    ensures
        final(buf)@ == old(buf)@ + word_bytes(endianness(), word),
{
    let bytes = bytes_of_word(&word);
    buf.extend_from_slice(bytes);
    assert(buf@ =~= old(buf)@ + bytes@);
}

/// Reads the word that starts at byte `at` of `bytes`.
pub(crate) fn read_word(bytes: &[u8], at: usize) -> (r: u64)
    requires
        at + WORD_LEN <= bytes.len(),
    ensures
        word_bytes(endianness(), r) == bytes@.subrange(at as int, at + WORD_LEN),
{
    word_of_bytes(slice_subrange(bytes, at, at + WORD_LEN))
}

/// Different words have different bytes.
pub proof fn lemma_word_bytes_injective(order: Endian, a: u64, b: u64)
    requires
        word_bytes(order, a) == word_bytes(order, b),
    ensures
        a == b,
{
    let x = low_first(a);
    let y = low_first(b);
    assert forall|i: int| 0 <= i < 8 implies x[i] == y[i] by {
        match order {
            Endian::Little => {},
            Endian::Big => {
                assert(x.reverse()[7 - i] == y.reverse()[7 - i]);
            },
        }
    }
    assert(x[0] == y[0] && x[1] == y[1] && x[2] == y[2] && x[3] == y[3] && x[4] == y[4]
        && x[5] == y[5] && x[6] == y[6] && x[7] == y[7]);
    assert(a == b) by (bit_vector)
        requires
            (a & 0xff) as u8 == (b & 0xff) as u8,
            ((a >> 8) & 0xff) as u8 == ((b >> 8) & 0xff) as u8,
            ((a >> 16) & 0xff) as u8 == ((b >> 16) & 0xff) as u8,
            ((a >> 24) & 0xff) as u8 == ((b >> 24) & 0xff) as u8,
            ((a >> 32) & 0xff) as u8 == ((b >> 32) & 0xff) as u8,
            ((a >> 40) & 0xff) as u8 == ((b >> 40) & 0xff) as u8,
            ((a >> 48) & 0xff) as u8 == ((b >> 48) & 0xff) as u8,
            ((a >> 56) & 0xff) as u8 == ((b >> 56) & 0xff) as u8,
    ;
}

/// The number that bytes stand for, least significant byte first.
pub open spec fn read_number(bytes: Seq<u8>) -> nat
    decreases bytes.len(),
{
    if bytes.len() == 0 {
        0
    } else {
        bytes[0] as nat + 256 * read_number(bytes.drop_first())
    }
}

/// The word that stands at byte `at` in a machine's own byte order.
pub open spec fn word_at(order: Endian, bytes: Seq<u8>, at: int) -> nat {
    let word = bytes.subrange(at, at + 8);
    match order {
        Endian::Little => read_number(word),
        Endian::Big => read_number(word.reverse()),
    }
}

/// The eight bytes of a word stand for the word.
pub proof fn law_word_bytes_stand_for_the_word(order: Endian, word: u64)
    ensures
        word_bytes(order, word).len() == 8,
        word_at(order, word_bytes(order, word), 0) == word,
{
    let bytes = low_first(word);
    assert(word_bytes(order, word).subrange(0, 8) =~= word_bytes(order, word));
    assert(bytes.reverse().reverse() =~= bytes);
    let b0 = (word & 0xff) as u8;
    let b1 = ((word >> 8) & 0xff) as u8;
    let b2 = ((word >> 16) & 0xff) as u8;
    let b3 = ((word >> 24) & 0xff) as u8;
    let b4 = ((word >> 32) & 0xff) as u8;
    let b5 = ((word >> 40) & 0xff) as u8;
    let b6 = ((word >> 48) & 0xff) as u8;
    let b7 = ((word >> 56) & 0xff) as u8;
    assert(b0 as u64 + 0x100 * (b1 as u64) + 0x1_0000 * (b2 as u64) + 0x100_0000 * (b3 as u64)
        + 0x1_0000_0000 * (b4 as u64) + 0x100_0000_0000 * (b5 as u64) + 0x1_0000_0000_0000 * (
    b6 as u64) + 0x100_0000_0000_0000 * (b7 as u64) == word) by (bit_vector)
        requires
            b0 == (word & 0xff) as u8,
            b1 == ((word >> 8) & 0xff) as u8,
            b2 == ((word >> 16) & 0xff) as u8,
            b3 == ((word >> 24) & 0xff) as u8,
            b4 == ((word >> 32) & 0xff) as u8,
            b5 == ((word >> 40) & 0xff) as u8,
            b6 == ((word >> 48) & 0xff) as u8,
            b7 == ((word >> 56) & 0xff) as u8,
    ;
    reveal_with_fuel(read_number, 9);
    assert(read_number(bytes) == b0 as nat + 256 * (b1 as nat + 256 * (b2 as nat + 256 * (b3 as nat
        + 256 * (b4 as nat + 256 * (b5 as nat + 256 * (b6 as nat + 256 * (b7 as nat))))))));
}

} // verus!
