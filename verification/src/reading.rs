//! Reading InfluxDB Line Protocol texts back.
//!
//! A line is a series, a space, fields separated by commas, a space, a timestamp
//! and a line break.  A field is a key, an equals sign and a value.

use vstd::prelude::*;

use crate::price::Price;

verus! {

/// The character does not occur in the text.
pub open spec fn lacks(text: Seq<char>, c: char) -> bool {
    forall|i: int| 0 <= i < text.len() ==> #[trigger] text[i] != c
}

/// The text holds none of the characters that give a line its structure.
pub open spec fn plain(text: Seq<char>) -> bool {
    lacks(text, ' ') && lacks(text, ',') && lacks(text, '\n')
}

/// What stands in front of the last `c`; nothing where there is none.
pub open spec fn before_last(text: Seq<char>, c: char) -> Seq<char>
    decreases text.len(),
{
    if text.len() == 0 {
        seq![]
    } else if text.last() == c {
        text.drop_last()
    } else {
        before_last(text.drop_last(), c)
    }
}

/// What stands behind the last `c`; all of the text where there is none.
pub open spec fn after_last(text: Seq<char>, c: char) -> Seq<char>
    decreases text.len(),
{
    if text.len() == 0 || text.last() == c {
        seq![]
    } else {
        after_last(text.drop_last(), c).push(text.last())
    }
}

/// The pieces of a text between the separators `c`.
pub open spec fn split(text: Seq<char>, c: char) -> Seq<Seq<char>>
    decreases text.len(),
{
    if text.len() == 0 {
        seq![seq![]]
    } else {
        let pieces = split(text.drop_last(), c);
        if text.last() == c {
            pieces.push(seq![])
        } else {
            pieces.drop_last().push(pieces.last().push(text.last()))
        }
    }
}

/// A line in its parts.
pub struct IlpLine {
    /// Measurement and tags.
    pub series: Seq<char>,
    pub fields: Seq<Seq<char>>,
    pub timestamp: Seq<char>,
}

/// Takes a line apart.
pub open spec fn read_line(line: Seq<char>) -> IlpLine {
    let text = line.drop_last();
    let front = before_last(text, ' ');
    IlpLine {
        series: before_last(front, ' '),
        fields: split(after_last(front, ' '), ','),
        timestamp: after_last(text, ' '),
    }
}

/// The field has this key, its equals sign included, and this whole number as its
/// value.
pub open spec fn integer_field(field: Seq<char>, key: Seq<char>, n: nat) -> bool {
    exists|digits: Seq<char>|
        field == key + digits + "i"@ && #[trigger] crate::text::reads_as(digits, n)
}

/// The field has this key, its equals sign included, and this price as its value.
pub open spec fn price_field(field: Seq<char>, key: Seq<char>, price: Price) -> bool {
    exists|value: Seq<char>|
        field == key + value && #[trigger] crate::price_text::shows_price(value, price)
}

/// Both whole numbers that a field can be read as are the same.
pub proof fn lemma_integer_field_unique(field: Seq<char>, key: Seq<char>, a: nat, b: nat)
    requires
        integer_field(field, key, a),
        integer_field(field, key, b),
    ensures
        a == b,
{
    let x = choose|digits: Seq<char>|
        field == key + digits + "i"@ && #[trigger] crate::text::reads_as(digits, a);
    let y = choose|digits: Seq<char>|
        field == key + digits + "i"@ && #[trigger] crate::text::reads_as(digits, b);
    assert((key + x + "i"@).len() == (key + y + "i"@).len());
    assert(x =~= y) by {
        assert forall|i: int| 0 <= i < x.len() implies x[i] == y[i] by {
            assert(field[key.len() + i] == x[i]);
            assert(field[key.len() + i] == y[i]);
        }
    }
}

pub proof fn lemma_lacks_joined(a: Seq<char>, b: Seq<char>, c: char)
    requires
        lacks(a, c),
        lacks(b, c),
    ensures
        lacks(a + b, c),
{
    assert forall|i: int| 0 <= i < (a + b).len() implies #[trigger] (a + b)[i] != c by {
        if i < a.len() {
            assert(a[i] != c);
        } else {
            assert(b[i - a.len()] != c);
        }
    }
}

pub proof fn lemma_plain_joined(a: Seq<char>, b: Seq<char>)
    requires
        plain(a),
        plain(b),
    ensures
        plain(a + b),
{
    lemma_lacks_joined(a, b, ' ');
    lemma_lacks_joined(a, b, ',');
    lemma_lacks_joined(a, b, '\n');
}

/// A numeral holds none of the characters that give a line its structure.
pub proof fn lemma_numeral_plain(text: Seq<char>)
    requires
        crate::text::digits_only(text),
    ensures
        plain(text),
{
}

/// The decimal text of a number reads back as the number and holds no separator.
pub proof fn lemma_number(n: nat)
    ensures
        crate::text::reads_as(crate::text::decimal(n), n),
        plain(crate::text::decimal(n)),
{
    crate::text::law_decimal_reads_back(n);
    lemma_numeral_plain(crate::text::decimal(n));
}

/// The last separator is the one behind which there is none.
pub proof fn lemma_cut(a: Seq<char>, b: Seq<char>, c: char)
    requires
        lacks(b, c),
    ensures
        before_last(a.push(c) + b, c) == a,
        after_last(a.push(c) + b, c) == b,
    decreases b.len(),
{
    let text = a.push(c) + b;
    if b.len() == 0 {
        assert(text =~= a.push(c));
        assert(text.drop_last() =~= a);
        assert(after_last(text, c) =~= b);
    } else {
        let rest = b.drop_last();
        assert forall|i: int| 0 <= i < rest.len() implies #[trigger] rest[i] != c by {
            assert(b[i] != c);
        }
        lemma_cut(a, rest, c);
        assert(text.drop_last() =~= a.push(c) + rest);
        assert(b[b.len() - 1] != c);
        assert(text.last() == b.last());
        assert(after_last(text, c) =~= rest.push(b.last()));
        assert(rest.push(b.last()) =~= b);
    }
}

/// A text has at least one piece.
pub proof fn lemma_split_nonempty(text: Seq<char>, c: char)
    ensures
        split(text, c).len() > 0,
    decreases text.len(),
{
    if text.len() > 0 {
        lemma_split_nonempty(text.drop_last(), c);
    }
}

/// Text without a separator makes the last piece longer.
pub proof fn lemma_split_extended(text: Seq<char>, more: Seq<char>, c: char)
    requires
        lacks(more, c),
    ensures
        split(text + more, c) == split(text, c).drop_last().push(split(text, c).last() + more),
    decreases more.len(),
{
    lemma_split_nonempty(text, c);
    let pieces = split(text, c);
    if more.len() == 0 {
        assert(text + more =~= text);
        assert(pieces.last() + more =~= pieces.last());
        assert(pieces =~= pieces.drop_last().push(pieces.last()));
    } else {
        let rest = more.drop_last();
        assert forall|i: int| 0 <= i < rest.len() implies #[trigger] rest[i] != c by {
            assert(more[i] != c);
        }
        lemma_split_extended(text, rest, c);
        assert((text + more).drop_last() =~= text + rest);
        assert(more[more.len() - 1] != c);
        assert((text + more).last() == more.last());
        assert((pieces.last() + rest).push(more.last()) =~= pieces.last() + more);
        assert(split(text + more, c) =~= pieces.drop_last().push(pieces.last() + more));
    }
}

/// A separator ends a piece and starts the next one.
pub proof fn lemma_split_cut(text: Seq<char>, close: Seq<char>, open: Seq<char>, c: char)
    requires
        lacks(close, c),
        lacks(open, c),
    ensures
        split(text + (close.push(c) + open), c) == split(text, c).drop_last().push(
            split(text, c).last() + close,
        ).push(open),
{
    let closed = text + close;
    lemma_split_extended(text, close, c);
    assert(closed.push(c).drop_last() =~= closed);
    assert(split(closed.push(c), c) == split(closed, c).push(seq![]));
    lemma_split_extended(closed.push(c), open, c);
    assert(closed.push(c) + open =~= text + (close.push(c) + open));
    assert(seq![] + open =~= open);
    assert(split(closed.push(c), c).drop_last() =~= split(closed, c));
}

/// Lines are built from the left.  `line` is what stands so far: a series, a
/// space, and the text of the fields so far.
pub open spec fn line_so_far(series: Seq<char>, fields: Seq<char>, line: Seq<char>) -> bool {
    line == series.push(' ') + fields && lacks(fields, ' ')
}

/// The first key.
pub proof fn fields_opened(series: Seq<char>, part: Seq<char>, key: Seq<char>) -> (r: Seq<char>)
    requires
        part == seq![' '] + key,
        plain(key),
    ensures
        r == key,
        line_so_far(series, r, series + part),
        split(r, ',') == seq![key],
{
    assert(series + part =~= series.push(' ') + key);
    lemma_split_extended(seq![], key, ',');
    assert(seq![] + key =~= key);
    assert(split(key, ',') =~= seq![key]);
    key
}

/// The value of the last field so far.
pub proof fn value_added(
    series: Seq<char>,
    fields: Seq<char>,
    line: Seq<char>,
    value: Seq<char>,
) -> (r: Seq<char>)
    requires
        line_so_far(series, fields, line),
        plain(value),
    ensures
        r == fields + value,
        line_so_far(series, r, line + value),
        split(r, ',') == split(fields, ',').drop_last().push(split(fields, ',').last() + value),
        split(r, ',').len() == split(fields, ',').len() > 0,
{
    assert(line + value =~= series.push(' ') + (fields + value));
    lemma_lacks_joined(fields, value, ' ');
    lemma_split_extended(fields, value, ',');
    lemma_split_nonempty(fields, ',');
    fields + value
}

/// The end of a field and the key of the next one.
pub proof fn field_opened(
    series: Seq<char>,
    fields: Seq<char>,
    line: Seq<char>,
    part: Seq<char>,
    close: Seq<char>,
    key: Seq<char>,
) -> (r: Seq<char>)
    requires
        line_so_far(series, fields, line),
        part == close.push(',') + key,
        plain(close),
        plain(key),
    ensures
        r == fields + part,
        line_so_far(series, r, line + part),
        split(r, ',') == split(fields, ',').drop_last().push(
            split(fields, ',').last() + close,
        ).push(key),
        split(r, ',').len() == split(fields, ',').len() + 1,
        split(fields, ',').len() > 0,
{
    assert(line + part =~= series.push(' ') + (fields + part));
    assert(lacks(part, ' ')) by {
        assert forall|i: int| 0 <= i < part.len() implies #[trigger] part[i] != ' ' by {
            if i < close.len() {
                assert(close[i] != ' ');
            } else if i > close.len() {
                assert(key[i - close.len() - 1] != ' ');
            }
        }
    }
    lemma_lacks_joined(fields, part, ' ');
    lemma_split_cut(fields, close, key, ',');
    lemma_split_nonempty(fields, ',');
    fields + part
}

/// The end of the last field, the timestamp and the line break: what the line then
/// reads as.
pub proof fn line_ended(
    series: Seq<char>,
    fields: Seq<char>,
    line: Seq<char>,
    timestamp: Seq<char>,
)
    requires
        line_so_far(series, fields, line),
        plain(timestamp),
    ensures
        ({
            let whole = line + "i "@ + timestamp + "\n"@;
            let read = read_line(whole);
            &&& whole.len() > 0 && whole.last() == '\n'
            &&& read.series == series
            &&& read.fields == split(fields, ',').drop_last().push(
                split(fields, ',').last() + "i"@,
            )
            &&& read.fields.len() == split(fields, ',').len() > 0
            &&& read.timestamp == timestamp
        }),
{
    reveal_strlit("i ");
    reveal_strlit("i");
    reveal_strlit("\n");
    let whole = line + "i "@ + timestamp + "\n"@;
    let closed = fields + "i"@;
    let front = series.push(' ') + closed;
    assert(whole.drop_last() =~= front.push(' ') + timestamp);
    lemma_cut(front, timestamp, ' ');
    lemma_lacks_joined(fields, "i"@, ' ');
    lemma_cut(series, closed, ' ');
    lemma_split_extended(fields, "i"@, ',');
    lemma_split_nonempty(fields, ',');
}

} // verus!
