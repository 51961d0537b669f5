//! Building text: decimal numbers, alignment, trimming.

use vstd::prelude::*;

verus! {

/// The character of a decimal digit.
pub open spec fn digit_char(digit: nat) -> char {
    (digit + '0' as nat) as char
}

/// A number in decimal, without leading zeros.
pub open spec fn decimal(n: nat) -> Seq<char>
    decreases n,
{
    if n < 10 {
        seq![digit_char(n)]
    } else {
        decimal(n / 10).push(digit_char(n % 10))
    }
}

/// `count` spaces.
pub open spec fn spaces(count: nat) -> Seq<char> {
    Seq::new(count, |i: int| ' ')
}

/// `text` with spaces in front that bring it to at least `width` characters.
pub open spec fn right_aligned(text: Seq<char>, width: nat) -> Seq<char> {
    if text.len() < width {
        spaces((width - text.len()) as nat) + text
    } else {
        text
    }
}

/// `text` without the slashes at its end.
pub open spec fn without_end_slashes(text: Seq<char>) -> Seq<char>
    decreases text.len(),
{
    if text.len() > 0 && text.last() == '/' {
        without_end_slashes(text.drop_last())
    } else {
        text
    }
}

/// The text of one decimal digit.
pub(crate) fn digit_text(digit: u64) -> (r: &'static str)
    requires
        digit < 10,
    ensures
        r@ == seq![digit_char(digit as nat)],
{
    proof {
        reveal_strlit("0");
        reveal_strlit("1");
        reveal_strlit("2");
        reveal_strlit("3");
        reveal_strlit("4");
        reveal_strlit("5");
        reveal_strlit("6");
        reveal_strlit("7");
        reveal_strlit("8");
        reveal_strlit("9");
    }
    let r: &'static str = match digit {
        0 => "0",
        1 => "1",
        2 => "2",
        3 => "3",
        4 => "4",
        5 => "5",
        6 => "6",
        7 => "7",
        8 => "8",
        _ => "9",
    };
    assert(r@ =~= seq![digit_char(digit as nat)]);
    r
}

/// Appends a number in decimal.
pub fn push_decimal(buf: &mut String, n: u64)
    ensures
        final(buf)@ == old(buf)@ + decimal(n as nat),
    decreases n,
{
    if n >= 10 {
        push_decimal(buf, n / 10);
    }
    buf.append(digit_text(n % 10));
    assert(buf@ =~= old(buf)@ + decimal(n as nat));
}

/// Appends text, right-aligned in a field of `width` characters.
pub fn push_right_aligned(buf: &mut String, text: &str, width: usize)
    ensures
        final(buf)@ == old(buf)@ + right_aligned(text@, width as nat),
{
    let len: usize = text.unicode_len();
    let mut pad: usize = len;
    proof {
        reveal_strlit(" ");
    }
    while pad < width
        invariant
            text@.len() == len,
            len <= pad,
            pad <= width || pad == len,
            " "@ =~= seq![' '],
            buf@ == old(buf)@ + spaces((pad - len) as nat),
        decreases width - pad,
    {
        buf.append(" ");
        pad = pad + 1;
        assert(spaces((pad - len) as nat) =~= spaces((pad - 1 - len) as nat).push(' '));
        assert(buf@ =~= old(buf)@ + spaces((pad - len) as nat));
    }
    buf.append(text);
    assert(buf@ =~= old(buf)@ + right_aligned(text@, width as nat));
}

/// The text without the slashes at its end.
pub fn trim_end_slashes(text: &str) -> (r: &str)
    ensures
        r@ == without_end_slashes(text@),
{
    let mut end: usize = text.unicode_len();
    assert(text@.take(end as int) =~= text@);
    while end > 0 && text.get_char(end - 1) == '/'
        invariant
            end <= text@.len(),
            without_end_slashes(text@.take(end as int)) == without_end_slashes(text@),
        decreases end,
    {
        end = end - 1;
        assert(text@.take(end + 1).drop_last() =~= text@.take(end as int));
    }
    let r = text.substring_char(0, end);
    assert(r@ =~= text@.take(end as int));
    r
}

/// The number that a text of decimal digits stands for.
pub open spec fn value_of(digits: Seq<char>) -> int
    decreases digits.len(),
{
    if digits.len() == 0 {
        0
    } else {
        value_of(digits.drop_last()) * 10 + (digits.last() as int - '0' as int)
    }
}

/// The decimal text of a number is made of digits, does not start with a zero
/// unless the number is zero, and stands for the number.
pub proof fn law_decimal_is_faithful(n: nat)
    ensures
        decimal(n).len() > 0,
        forall|i: int| 0 <= i < decimal(n).len() ==> '0' <= #[trigger] decimal(n)[i] <= '9',
        n > 0 ==> decimal(n)[0] != '0',
        value_of(decimal(n)) == n,
    decreases n,
{
    if n < 10 {
        assert(decimal(n).drop_last() =~= seq![]);
        reveal_with_fuel(value_of, 2);
    } else {
        law_decimal_is_faithful(n / 10);
        assert(decimal(n).drop_last() =~= decimal(n / 10));
        assert forall|i: int| 0 <= i < decimal(n).len() implies '0' <= #[trigger] decimal(n)[i]
            <= '9' by {
            if i < decimal(n / 10).len() {
                assert(decimal(n)[i] == decimal(n / 10)[i]);
            }
        }
        assert(decimal(n)[0] == decimal(n / 10)[0]);
    }
}

/// The text is made of decimal digits.
pub open spec fn digits_only(text: Seq<char>) -> bool {
    forall|i: int| 0 <= i < text.len() ==> '0' <= #[trigger] text[i] <= '9'
}

/// The text is the decimal numeral of a number: digits that stand for it, without
/// leading zeros.
pub open spec fn reads_as(text: Seq<char>, n: nat) -> bool {
    &&& text.len() > 0
    &&& digits_only(text)
    &&& text.len() > 1 ==> text[0] != '0'
    &&& value_of(text) == n
}

/// The decimal text of a number reads back as the number.
pub proof fn law_decimal_reads_back(n: nat)
    ensures
        reads_as(decimal(n), n),
{
    law_decimal_is_faithful(n);
    if n == 0 {
        assert(decimal(0).len() == 1);
    }
}

proof fn lemma_value_positive(digits: Seq<char>)
    requires
        digits.len() > 0,
        digits_only(digits),
    ensures
        value_of(digits) >= 0,
        digits[0] != '0' ==> value_of(digits) > 0,
    decreases digits.len(),
{
    let rest = digits.drop_last();
    assert('0' <= digits[digits.len() - 1] <= '9');
    if rest.len() == 0 {
        assert(value_of(rest) == 0);
    } else {
        assert(digits_only(rest)) by {
            assert forall|i: int| 0 <= i < rest.len() implies '0' <= #[trigger] rest[i] <= '9' by {
                assert('0' <= digits[i] <= '9');
            }
        }
        lemma_value_positive(rest);
    }
}

/// A number has one numeral only.
pub proof fn law_numeral_is_unique(a: Seq<char>, b: Seq<char>, n: nat)
    requires
        reads_as(a, n),
        reads_as(b, n),
    ensures
        a == b,
    decreases a.len(),
{
    let ra = a.drop_last();
    let rb = b.drop_last();
    assert('0' <= a[a.len() - 1] <= '9');
    assert('0' <= b[b.len() - 1] <= '9');
    assert(digits_only(ra)) by {
        assert forall|i: int| 0 <= i < ra.len() implies '0' <= #[trigger] ra[i] <= '9' by {
            assert('0' <= a[i] <= '9');
        }
    }
    assert(digits_only(rb)) by {
        assert forall|i: int| 0 <= i < rb.len() implies '0' <= #[trigger] rb[i] <= '9' by {
            assert('0' <= b[i] <= '9');
        }
    }
    if ra.len() > 0 {
        lemma_value_positive(ra);
    } else {
        assert(value_of(ra) == 0);
    }
    if rb.len() > 0 {
        lemma_value_positive(rb);
    } else {
        assert(value_of(rb) == 0);
    }
    assert(value_of(ra) == value_of(rb));
    assert(a.last() == b.last());
    if ra.len() > 0 && rb.len() > 0 {
        law_numeral_is_unique(ra, rb, value_of(ra) as nat);
    }
    assert(a =~= ra.push(a.last()));
    assert(b =~= rb.push(b.last()));
    if ra.len() == 0 {
        assert(rb.len() == 0);
        assert(ra =~= rb);
    }
}

/// Aligned text ends with the text, is as wide as asked for or as wide as the
/// text where that is wider, and has only spaces in front.
pub proof fn law_alignment_adds_spaces_in_front(text: Seq<char>, width: nat)
    ensures
        ({
            let aligned = right_aligned(text, width);
            let pad = aligned.len() - text.len();
            &&& aligned.len() == if text.len() < width { width } else { text.len() }
            &&& forall|i: int| 0 <= i < pad ==> #[trigger] aligned[i] == ' '
            &&& forall|i: int| 0 <= i < text.len() ==> aligned[pad + i] == #[trigger] text[i]
        }),
{
}

/// Trimming keeps the front of the text up to the last character that is not a
/// slash.
pub proof fn law_trimming_removes_end_slashes(text: Seq<char>)
    ensures
        ({
            let kept = without_end_slashes(text);
            &&& kept.len() <= text.len()
            &&& kept == text.take(kept.len() as int)
            &&& kept.len() > 0 ==> kept.last() != '/'
            &&& forall|i: int| kept.len() <= i < text.len() ==> #[trigger] text[i] == '/'
        }),
    decreases text.len(),
{
    let kept = without_end_slashes(text);
    if text.len() > 0 && text.last() == '/' {
        let rest = text.drop_last();
        law_trimming_removes_end_slashes(rest);
        assert(rest.take(kept.len() as int) =~= text.take(kept.len() as int));
        assert forall|i: int| kept.len() <= i < text.len() implies #[trigger] text[i] == '/' by {
            if i < rest.len() {
                assert(rest[i] == '/');
            }
        }
    } else {
        assert(kept =~= text.take(kept.len() as int));
    }
}

} // verus!
