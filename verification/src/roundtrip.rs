//! Writing and reading agree: the text of a statement parses back to the
//! statement.

use crate::ast::{Keyword, Statement, StatementView};
use crate::grammar::{
    all_digits, append_digits, decimal_value, digit_value, digits_end, digits_value, element_at,
    is_bare_word, is_delimiter, is_digit, is_space, is_word_char, is_word_start, items_at,
    keyword_at, lemma_append_digits_concat, more_items_at, number_value, quote_at, rest_items_at,
    skip_spaces, statement_of, token_end, token_value,
};
use crate::render::{
    decimal_fraction, decimal_text, decimal_whole, digit_char, int_text, items_text, keyword_text,
    nat_text, statement_text, str_text, tuple_text, value_text, zeros,
};
use crate::tuple::{in_lowest_terms, lowest_terms, Tuple, Value, E};
use vstd::prelude::*;

verus! {

/// Whether `text` stands in `s` at `pos`.
pub open spec fn has_at(s: Seq<char>, pos: int, text: Seq<char>) -> bool {
    &&& 0 <= pos
    &&& pos + text.len() <= s.len()
    &&& s.subrange(pos, pos + text.len()) == text
}

/// Whether a token ends at `pos`: the text ends there, or a delimiter
/// stands there.
pub open spec fn ends_at(s: Seq<char>, pos: int) -> bool {
    pos == s.len() || (0 <= pos < s.len() && is_delimiter(s[pos]))
}

/// A text stands at a position exactly when its two halves stand there,
/// one behind the other.
pub proof fn lemma_has_at_concat(s: Seq<char>, pos: int, x: Seq<char>, y: Seq<char>)
    ensures
        has_at(s, pos, x + y) <==> has_at(s, pos, x) && has_at(s, pos + x.len(), y),
{
    if has_at(s, pos, x + y) {
        assert(s.subrange(pos, pos + x.len()) =~= (x + y).subrange(0, x.len() as int));
        assert((x + y).subrange(0, x.len() as int) =~= x);
        assert(s.subrange(pos + x.len(), pos + x.len() + y.len()) =~= (x + y).subrange(
            x.len() as int,
            (x + y).len() as int,
        ));
        assert((x + y).subrange(x.len() as int, (x + y).len() as int) =~= y);
    }
    if has_at(s, pos, x) && has_at(s, pos + x.len(), y) {
        assert(s.subrange(pos, pos + (x + y).len()) =~= s.subrange(pos, pos + x.len()) + s.subrange(
            pos + x.len(),
            pos + x.len() + y.len(),
        ));
    }
}

/// The characters of a text that stands at a position.
pub proof fn lemma_has_at_index(s: Seq<char>, pos: int, text: Seq<char>, i: int)
    requires
        has_at(s, pos, text),
        0 <= i < text.len(),
    ensures
        s[pos + i] == text[i],
{
    assert(s.subrange(pos, pos + text.len())[i] == s[pos + i]);
}

/// The digits of a number are digits, and they spell the number.
pub proof fn lemma_nat_text(n: nat)
    ensures
        nat_text(n).len() >= 1,
        all_digits(nat_text(n)),
        digits_value(nat_text(n)) == n,
        n != 0 ==> nat_text(n)[0] != '0',
        n != 0 ==> digit_value(nat_text(n).last()) == n % 10,
    decreases n,
{
    lemma_digit_char(n % 10);
    if n >= 10 {
        lemma_nat_text(n / 10);
        let head = nat_text(n / 10);
        let all = nat_text(n);
        assert(all.drop_last() =~= head);
        assert(all[0] == head[0]);
        assert forall|i: int| 0 <= i < all.len() implies is_digit(#[trigger] all[i]) by {
            if i < head.len() {
                assert(all[i] == head[i]);
            }
        }
        assert(all.last() == digit_char(n % 10));
        assert(digits_value(all) == digits_value(head) * 10 + digit_value(all.last()));
        assert(n == (n / 10) * 10 + n % 10) by (nonlinear_arith);
    } else {
        let all = nat_text(n);
        assert(all.drop_last() =~= Seq::<char>::empty());
        assert(all.last() == digit_char(n));
        assert(append_digits(0, all.drop_last()) == 0);
        assert(digits_value(all) == 0 * 10 + digit_value(all.last()));
    }
}

/// The character of a digit is a digit, and stands for it.
pub proof fn lemma_digit_char(d: nat)
    requires
        d < 10,
    ensures
        is_digit(digit_char(d)),
        digit_value(digit_char(d)) == d,
        d != 0 ==> digit_char(d) != '0',
        !is_delimiter(digit_char(d)),
        !is_word_start(digit_char(d)),
{
}

/// Zeros before a number do not change it.
pub proof fn lemma_leading_zeros(k: nat, digits: Seq<char>)
    ensures
        digits_value(zeros(k) + digits) == digits_value(digits),
        all_digits(zeros(k)),
{
    lemma_zeros_value(k);
    lemma_append_digits_concat(0, zeros(k), digits);
}

/// A run of zeros spells zero.
pub proof fn lemma_zeros_value(k: nat)
    ensures
        digits_value(zeros(k)) == 0,
    decreases k,
{
    if k > 0 {
        lemma_zeros_value((k - 1) as nat);
        assert(zeros(k).drop_last() =~= zeros((k - 1) as nat));
    }
}

/// Where only digits stand from `pos` up to `end`, and none at `end`,
/// the digits end at `end`.
pub proof fn lemma_digits_end(s: Seq<char>, pos: int, end: int)
    requires
        0 <= pos <= end <= s.len(),
        forall|i: int| pos <= i < end ==> is_digit(#[trigger] s[i]),
        end < s.len() ==> !is_digit(s[end]),
    ensures
        digits_end(s, pos) == end,
    decreases end - pos,
{
    if pos < end {
        lemma_digits_end(s, pos + 1, end);
    }
}

/// Where no delimiter stands from `pos` up to `end`, and the token ends
/// at `end`, that is the token's end.
pub proof fn lemma_token_end(s: Seq<char>, pos: int, end: int)
    requires
        0 <= pos <= end <= s.len(),
        forall|i: int| pos <= i < end ==> !is_delimiter(#[trigger] s[i]),
        ends_at(s, end),
    ensures
        token_end(s, pos) == end,
    decreases end - pos,
{
    if pos < end {
        lemma_token_end(s, pos + 1, end);
    }
}

/// Whether a text can stand as a token: it is not empty and holds no
/// delimiter.
pub open spec fn is_token_text(x: Seq<char>) -> bool {
    &&& x.len() > 0
    &&& forall|i: int| 0 <= i < x.len() ==> !is_delimiter(#[trigger] x[i])
}

/// Whether a decimal can be held by an element: it is in lowest terms,
/// its coefficient fits 64 bits and its scale 16.
pub open spec fn is_held_decimal(negative: bool, coefficient: nat, scale: nat) -> bool {
    &&& coefficient <= u64::MAX
    &&& scale <= u16::MAX
    &&& in_lowest_terms((negative, coefficient, scale))
}

/// The text of an integer is a token that reads as that integer.
pub proof fn lemma_int_token(i: int)
    requires
        i32::MIN <= i <= i32::MAX,
    ensures
        is_token_text(int_text(i)),
        token_value(int_text(i)) == Some(Value::Int(i)),
{
    let n = if i < 0 {
        (-i) as nat
    } else {
        i as nat
    };
    let digits = nat_text(n);
    let tok = int_text(i);
    lemma_nat_text(n);
    assert forall|k: int| 0 <= k < digits.len() implies !is_delimiter(#[trigger] digits[k])
        && !is_word_start(digits[k]) by {
        assert(is_digit(digits[k]));
    }
    assert(seq!['_'][0] == '_');
    let body = if i < 0 {
        tok.skip(1)
    } else {
        tok
    };
    if i < 0 {
        assert(tok[0] == '-');
        assert(body =~= digits);
        assert forall|k: int| 0 <= k < tok.len() implies !is_delimiter(#[trigger] tok[k]) by {
            if k > 0 {
                assert(tok[k] == digits[k - 1]);
            }
        }
    } else {
        assert(is_digit(tok[0]));
    }
    assert(body == digits);
    lemma_digits_end(body, 0, body.len() as int);
    assert(body.take(body.len() as int) =~= body);
}

/// A sign, digits, a point and more digits are a token that reads as
/// the decimal of those digits.
pub proof fn lemma_number_token(negative: bool, whole: Seq<char>, fraction: Seq<char>)
    requires
        whole.len() > 0,
        fraction.len() > 0,
        all_digits(whole),
        all_digits(fraction),
    ensures
        ({
            let sign = if negative {
                seq!['-']
            } else {
                Seq::<char>::empty()
            };
            let tok = sign + whole + seq!['.'] + fraction;
            &&& is_token_text(tok)
            &&& token_value(tok) == decimal_value(
                negative,
                digits_value(whole + fraction),
                fraction.len(),
            )
        }),
{
    let sign = if negative {
        seq!['-']
    } else {
        Seq::<char>::empty()
    };
    let unsigned = whole + seq!['.'] + fraction;
    let tok = sign + whole + seq!['.'] + fraction;
    assert(tok =~= sign + unsigned);
    assert forall|k: int| 0 <= k < unsigned.len() implies !is_delimiter(#[trigger] unsigned[k])
        && !is_word_start(unsigned[k]) by {
        if k < whole.len() {
            assert(unsigned[k] == whole[k]);
            assert(is_digit(whole[k]));
        } else if k == whole.len() {
        } else {
            assert(unsigned[k] == fraction[k - whole.len() - 1]);
            assert(is_digit(fraction[k - whole.len() - 1]));
        }
    }
    assert(is_digit(whole[0]));
    assert(unsigned[0] == whole[0]);
    assert(seq!['_'][0] == '_');
    let body = if tok.len() > 0 && tok[0] == '-' {
        tok.skip(1)
    } else {
        tok
    };
    if negative {
        assert(tok[0] == '-');
        assert(body =~= unsigned);
        assert forall|k: int| 0 <= k < tok.len() implies !is_delimiter(#[trigger] tok[k]) by {
            if k > 0 {
                assert(tok[k] == unsigned[k - 1]);
            }
        }
    } else {
        assert(tok =~= unsigned);
    }
    assert(body == unsigned);
    let point = whole.len() as int;
    assert forall|k: int| 0 <= k < point implies is_digit(#[trigger] body[k]) by {
        assert(body[k] == whole[k]);
    }
    assert(body[point] == '.');
    lemma_digits_end(body, 0, point);
    assert(body.take(point) =~= whole);
    assert(body.skip(point + 1) =~= fraction);
}

/// The digits of a held decimal, before and behind its point, read as
/// its coefficient at its scale.
pub proof fn lemma_decimal_digits(negative: bool, coefficient: nat, scale: nat)
    requires
        is_held_decimal(negative, coefficient, scale),
    ensures
        ({
            let whole = decimal_whole(coefficient, scale);
            let fraction = decimal_fraction(coefficient, scale);
            &&& whole.len() > 0
            &&& fraction.len() > 0
            &&& all_digits(whole)
            &&& all_digits(fraction)
            &&& lowest_terms(negative, digits_value(whole + fraction), fraction.len()) == (
                negative,
                coefficient,
                scale,
            )
        }),
{
    let digits = nat_text(coefficient);
    let len = digits.len() as int;
    let whole = decimal_whole(coefficient, scale);
    let fraction = decimal_fraction(coefficient, scale);
    lemma_nat_text(coefficient);
    lemma_leading_zeros((scale - len) as nat, digits);
    assert forall|k: int| 0 <= k < whole.len() implies is_digit(#[trigger] whole[k]) by {
        if len > scale {
            assert(whole[k] == digits[k]);
        }
    }
    assert forall|k: int| 0 <= k < fraction.len() implies is_digit(#[trigger] fraction[k]) by {
        if scale == 0 {
        } else if len > scale {
            assert(fraction[k] == digits[k + len - scale]);
        } else if k < scale - len {
            assert(fraction[k] == '0');
        } else {
            assert(fraction[k] == digits[k - (scale - len)]);
        }
    }
    let read = digits_value(whole + fraction);
    if scale == 0 {
        assert(whole =~= digits);
        assert((whole + fraction).drop_last() =~= digits);
        assert((whole + fraction).last() == '0');
        assert(read == coefficient * 10);
        if coefficient != 0 {
            assert((coefficient * 10) % 10 == 0 && (coefficient * 10) / 10 == coefficient)
                by (nonlinear_arith);
            assert(lowest_terms(negative, read, 1) == lowest_terms(negative, coefficient, 0));
        }
    } else if len > scale {
        assert(whole + fraction =~= digits);
    } else {
        assert(whole + fraction =~= zeros((scale - len + 1) as nat) + digits);
        lemma_leading_zeros((scale - len + 1) as nat, digits);
    }
}

/// The text of a decimal is a token that reads as that decimal.
pub proof fn lemma_decimal_token(negative: bool, coefficient: nat, scale: nat)
    requires
        is_held_decimal(negative, coefficient, scale),
    ensures
        is_token_text(decimal_text(negative, coefficient, scale)),
        token_value(decimal_text(negative, coefficient, scale)) == Some(
            Value::Float { negative, coefficient, scale },
        ),
{
    lemma_decimal_digits(negative, coefficient, scale);
    lemma_number_token(
        negative,
        decimal_whole(coefficient, scale),
        decimal_fraction(coefficient, scale),
    );
}

/// A bare word is a token that reads as the string it spells.
pub proof fn lemma_word_token(word: Seq<char>)
    requires
        is_bare_word(word),
    ensures
        is_token_text(word),
        token_value(word) == Some(Value::Str(word)),
{
    assert forall|i: int| 0 <= i < word.len() implies !is_delimiter(#[trigger] word[i]) by {
        assert(is_word_char(word[i]));
    }
}

/// Whether an element's text reads back as the element: its integers
/// fit 32 bits, its decimals can be held, and its strings hold no double
/// quote.
pub open spec fn is_writable(v: Value) -> bool
    decreases v, 0nat,
{
    match v {
        Value::Any => true,
        Value::Int(i) => i32::MIN <= i <= i32::MAX,
        Value::Float { negative, coefficient, scale } => is_held_decimal(negative, coefficient, scale),
        Value::Str(s) => !s.contains('"'),
        Value::Tup(items) => all_writable(items),
    }
}

/// Whether the text of every element reads back as the element.
pub open spec fn all_writable(items: Seq<Value>) -> bool
    decreases items, 1nat,
{
    forall|i: int| 0 <= i < items.len() ==> is_writable(#[trigger] items[i])
}

/// The text of a tuple from its element at `from` on: each element with
/// a comma and a space before it, and the closing bracket.
pub open spec fn tail_text(items: Seq<Value>, from: int) -> Seq<char>
    decreases items.len() - from,
{
    if from < 0 || from >= items.len() {
        seq![']']
    } else {
        seq![',', ' '] + value_text(items[from]) + tail_text(items, from + 1)
    }
}

/// The text of a tuple's elements and its closing bracket, split at an
/// element.
pub proof fn lemma_tail_text(items: Seq<Value>, k: int)
    requires
        1 <= k <= items.len(),
    ensures
        items_text(items) + seq![']'] == items_text(items.take(k)) + tail_text(items, k),
    decreases items.len() - k,
{
    if k == items.len() {
        assert(items.take(k) =~= items);
    } else {
        lemma_tail_text(items, k + 1);
        let longer = items.take(k + 1);
        assert(longer.drop_last() =~= items.take(k));
        assert(longer.last() == items[k]);
        assert(items_text(longer) == items_text(items.take(k)) + seq![',', ' '] + value_text(
            items[k],
        ));
        assert(items_text(longer) + tail_text(items, k + 1) =~= items_text(items.take(k)) + (seq![
            ',',
            ' ',
        ] + value_text(items[k]) + tail_text(items, k + 1)));
    }
}

/// The first double quote at or after `pos` is the one at `end`, where
/// none stands before it.
pub proof fn lemma_quote_at(s: Seq<char>, pos: int, end: int)
    requires
        0 <= pos <= end < s.len(),
        forall|i: int| pos <= i < end ==> #[trigger] s[i] != '"',
        s[end] == '"',
    ensures
        quote_at(s, pos) == Some(end),
    decreases end - pos,
{
    if pos < end {
        lemma_quote_at(s, pos + 1, end);
    }
}

/// A token that stands in a text reads as its value.
pub proof fn lemma_token_reads_back(s: Seq<char>, pos: int, tok: Seq<char>, v: Value)
    requires
        is_token_text(tok),
        token_value(tok) == Some(v),
        has_at(s, pos, tok),
        ends_at(s, pos + tok.len()),
    ensures
        element_at(s, pos) == Some((v, pos + tok.len())),
{
    assert forall|i: int| pos <= i < pos + tok.len() implies !is_delimiter(#[trigger] s[i]) by {
        lemma_has_at_index(s, pos, tok, i - pos);
    }
    lemma_token_end(s, pos, pos + tok.len());
    assert(!is_delimiter(s[pos]));
}

/// The text of an element is not empty, and starts with neither a
/// space, a comma nor a closing bracket.
pub proof fn lemma_text_starts(v: Value)
    requires
        is_writable(v),
    ensures
        value_text(v).len() > 0,
        !is_space(value_text(v)[0]),
        value_text(v)[0] != ',',
        value_text(v)[0] != ']',
{
    match v {
        Value::Any => {},
        Value::Int(i) => {
            lemma_int_token(i);
            assert(!is_delimiter(int_text(i)[0]));
        },
        Value::Float { negative, coefficient, scale } => {
            lemma_decimal_token(negative, coefficient, scale);
            assert(!is_delimiter(decimal_text(negative, coefficient, scale)[0]));
        },
        Value::Str(w) => {
            if is_bare_word(w) {
                lemma_word_token(w);
                assert(!is_delimiter(w[0]));
            } else {
                assert(str_text(w)[0] == '"');
            }
        },
        Value::Tup(items) => {
            assert(tuple_text(items)[0] == '[');
        },
    }
}

/// The text of an element, where it stands in a line and the element
/// ends behind it, reads back as the element.
pub proof fn lemma_element_reads_back(s: Seq<char>, pos: int, v: Value)
    requires
        is_writable(v),
        has_at(s, pos, value_text(v)),
        ends_at(s, pos + value_text(v).len()),
    ensures
        element_at(s, pos) == Some((v, pos + value_text(v).len())),
    decreases v, 0nat,
{
    let text = value_text(v);
    lemma_text_starts(v);
    lemma_has_at_index(s, pos, text, 0);
    match v {
        Value::Any => {
            assert(seq!['_'][0] == '_');
            lemma_token_reads_back(s, pos, text, v);
        },
        Value::Int(i) => {
            lemma_int_token(i);
            lemma_token_reads_back(s, pos, text, v);
        },
        Value::Float { negative, coefficient, scale } => {
            lemma_decimal_token(negative, coefficient, scale);
            lemma_token_reads_back(s, pos, text, v);
        },
        Value::Str(w) => {
            if is_bare_word(w) {
                lemma_word_token(w);
                lemma_token_reads_back(s, pos, text, v);
            } else {
                let end = pos + 1 + w.len();
                assert(text[0] == '"');
                assert forall|i: int| pos + 1 <= i < end implies #[trigger] s[i] != '"' by {
                    lemma_has_at_index(s, pos, text, i - pos);
                    assert(text[i - pos] == w[i - pos - 1]);
                    assert(w.contains(w[i - pos - 1]));
                }
                lemma_has_at_index(s, pos, text, end - pos);
                lemma_quote_at(s, pos + 1, end);
                assert(s.subrange(pos + 1, end) =~= w) by {
                    assert forall|i: int| 0 <= i < w.len() implies s.subrange(pos + 1, end)[i]
                        == w[i] by {
                        lemma_has_at_index(s, pos, text, i + 1);
                    }
                }
            }
        },
        Value::Tup(items) => {
            assert(text =~= seq!['['] + (items_text(items) + seq![']']));
            lemma_has_at_concat(s, pos, seq!['['], items_text(items) + seq![']']);
            lemma_items_read_back(s, pos + 1, items);
        },
    }
}

/// The elements of a tuple and its closing bracket, where they stand in
/// a line behind the opening bracket, read back as the elements.
pub proof fn lemma_items_read_back(s: Seq<char>, pos: int, items: Seq<Value>)
    requires
        all_writable(items),
        has_at(s, pos, items_text(items) + seq![']']),
    ensures
        items_at(s, pos) == Some((items, pos + items_text(items).len() + 1)),
    decreases items, 1nat, 0nat,
{
    let text = items_text(items) + seq![']'];
    lemma_has_at_index(s, pos, text, 0);
    if items.len() == 0 {
        assert(text[0] == ']');
    } else {
        let first = value_text(items[0]);
        lemma_tail_text(items, 1);
        assert(items.take(1).len() == 1);
        assert(items.take(1)[0] == items[0]);
        assert(text == first + tail_text(items, 1));
        lemma_text_starts(items[0]);
        assert(text[0] == first[0]);
        lemma_has_at_concat(s, pos, first, tail_text(items, 1));
        lemma_tail_starts(items, 1);
        lemma_has_at_index(s, pos + first.len(), tail_text(items, 1), 0);
        let next = pos + first.len();
        assert(s[next] == tail_text(items, 1)[0]);
        assert(ends_at(s, next));
        lemma_element_reads_back(s, pos, items[0]);
        lemma_rest_reads_back(s, next, items, 1);
        assert(s[pos] == first[0]);
        assert(items_at(s, pos) == more_items_at(s, pos));
        assert(element_at(s, pos) == Some((items[0], next)));
        assert(more_items_at(s, pos) == Some(
            (seq![items[0]] + items.skip(1), next + tail_text(items, 1).len()),
        ));
        assert(seq![items[0]] + items.skip(1) =~= items);
        assert(text.len() == first.len() + tail_text(items, 1).len());
    }
}

/// What follows an element in a tuple's text starts with a comma or the
/// closing bracket.
pub proof fn lemma_tail_starts(items: Seq<Value>, from: int)
    ensures
        tail_text(items, from).len() > 0,
        is_delimiter(tail_text(items, from)[0]),
        !is_space(tail_text(items, from)[0]),
{
}

/// The rest of a tuple's text, from the comma before an element on,
/// reads back as the rest of its elements.
pub proof fn lemma_rest_reads_back(s: Seq<char>, pos: int, items: Seq<Value>, from: int)
    requires
        all_writable(items),
        1 <= from <= items.len(),
        has_at(s, pos, tail_text(items, from)),
    ensures
        rest_items_at(s, pos) == Some((items.skip(from), pos + tail_text(items, from).len())),
    decreases items, 0nat, items.len() - from,
{
    let text = tail_text(items, from);
    lemma_has_at_index(s, pos, text, 0);
    if from == items.len() {
        assert(items.skip(from) =~= Seq::<Value>::empty());
    } else {
        let item = value_text(items[from]);
        let rest = tail_text(items, from + 1);
        lemma_has_at_index(s, pos, text, 1);
        assert(text =~= seq![',', ' '] + (item + rest));
        lemma_has_at_concat(s, pos, seq![',', ' '], item + rest);
        lemma_has_at_concat(s, pos + 2, item, rest);
        lemma_text_starts(items[from]);
        lemma_has_at_index(s, pos + 2, item, 0);
        lemma_tail_starts(items, from + 1);
        lemma_has_at_index(s, pos + 2 + item.len(), rest, 0);
        let next = pos + 2 + item.len();
        assert(s[next] == rest[0]);
        assert(ends_at(s, next));
        lemma_element_reads_back(s, pos + 2, items[from]);
        lemma_rest_reads_back(s, next, items, from + 1);
        assert(s[pos] == ',');
        assert(s[pos + 1] == ' ');
        assert(s[pos + 2] == item[0]);
        assert(rest_items_at(s, pos) == more_items_at(s, pos + 1));
        assert(more_items_at(s, pos + 1) == more_items_at(s, pos + 2));
        assert(element_at(s, pos + 2) == Some((items[from], next)));
        assert(more_items_at(s, pos + 2) == Some(
            (seq![items[from]] + items.skip(from + 1), next + rest.len()),
        ));
        assert(seq![items[from]] + items.skip(from + 1) =~= items.skip(from));
        assert(text.len() == 2 + item.len() + rest.len());
    }
}

/// Reading undoes writing: the text of a statement parses back to the
/// statement, where the text of each of its elements reads back.
pub proof fn lemma_statement_reads_back(st: StatementView)
    requires
        all_writable(st.tuple()),
    ensures
        statement_of(statement_text(st)) == Some(st),
{
    let word = keyword_text(st.keyword());
    let items = st.tuple();
    let s = statement_text(st);
    let open = word.len() as int + 1;
    assert(s =~= word + (seq![' '] + (seq!['['] + (items_text(items) + seq![']']))));
    lemma_has_at_concat(s, 0, word, seq![' '] + (seq!['['] + (items_text(items) + seq![']'])));
    lemma_has_at_concat(s, open - 1, seq![' '], seq!['['] + (items_text(items) + seq![']']));
    lemma_has_at_concat(s, open, seq!['['], items_text(items) + seq![']']);
    assert(s.subrange(0, s.len() as int) =~= s);
    lemma_has_at_index(s, 0, word, 0);
    lemma_has_at_index(s, 0, word, 1);
    if st.keyword() == Keyword::Out {
        lemma_has_at_index(s, 0, word, 2);
    }
    assert(skip_spaces(s, 0) == 0);
    assert(keyword_at(s, 0) == Some((st.keyword(), open - 1)));
    lemma_has_at_index(s, open - 1, seq![' '], 0);
    lemma_has_at_index(s, open, seq!['['], 0);
    assert(skip_spaces(s, open) == open);
    assert(skip_spaces(s, open - 1) == open);
    lemma_items_read_back(s, open + 1, items);
    let end = open + 1 + items_text(items).len() + 1;
    assert(end == s.len());
    assert(skip_spaces(s, end) == end);
}

/// Whether a string holds a double quote.
fn holds_quote(s: &str) -> (b: bool)
    ensures
        b == s@.contains('"'),
{
    let chars = crate::grammar::chars_of(s);
    let mut i: usize = 0;
    while i < chars.len()
        invariant
            i <= chars@.len(),
            chars@ == s@,
            forall|j: int| 0 <= j < i ==> #[trigger] chars@[j] != '"',
        decreases chars@.len() - i,
    {
        if chars[i] == '"' {
            assert(s@.contains(s@[i as int]));
            return true;
        }
        i += 1;
    }
    false
}

impl E {
    /// Whether the element's text reads back as the element: whether
    /// none of its strings holds a double quote.
    pub fn is_writable(&self) -> (b: bool)
        ensures
            b == is_writable(self@),
        decreases self, 0nat,
    {
        match self {
            E::Any => true,
            E::I(_) => true,
            E::D(d) => {
                let _ = d.coefficient();
                true
            },
            E::S(s) => !holds_quote(s.as_str()),
            E::T(t) => t.is_writable(),
        }
    }
}

impl Tuple {
    /// Whether the tuple's text reads back as the tuple: whether none of
    /// its strings holds a double quote.
    pub fn is_writable(&self) -> (b: bool)
        ensures
            b == all_writable(self@),
        decreases self, 1nat,
    {
        let n = self.len();
        let mut i: usize = 0;
        while i < n
            invariant
                i <= n,
                n == self@.len(),
                forall|j: int| 0 <= j < i ==> is_writable(#[trigger] self@[j]),
            decreases n - i,
        {
            if !self.get(i).is_writable() {
                return false;
            }
            i += 1;
        }
        true
    }
}

} // verus!
