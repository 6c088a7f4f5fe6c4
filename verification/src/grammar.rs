//! The statement grammar.
//!
//! ```text
//! statement := keyword tuple
//! keyword   := "in" | "rd" | "out"
//! tuple     := "[" "]" | "[" element ( "," element )* "]"
//! element   := "_" | integer | decimal | word | '"' text '"' | tuple
//! ```
//!
//! Blanks (spaces, tabs and line breaks) may stand around keywords,
//! brackets, commas and elements. An element that is neither quoted nor
//! bracketed is a token: it runs up to the next blank, comma, bracket or
//! quote.
//!
//! The grammar is stated as specification functions on the characters of
//! a line; the parser is proved to compute them.

use crate::ast::{Keyword, Statement, StatementView};
use crate::error::ParseError;
use crate::tuple::{lowest_terms, values_of, Decimal, Tuple, Value, E};
use vstd::prelude::*;
use vstd::string::StrSliceExecFns;

verus! {

/// Whether a character is blank: a space, a tab or a line break.
pub open spec fn is_space(c: char) -> bool {
    c == ' ' || c == '\t' || c == '\n' || c == '\r'
}

/// Whether a character ends a token.
pub open spec fn is_delimiter(c: char) -> bool {
    is_space(c) || c == ',' || c == '[' || c == ']' || c == '"'
}

/// Whether a character is a decimal digit.
pub open spec fn is_digit(c: char) -> bool {
    '0' <= c && c <= '9'
}

/// Whether a character can start a bare word.
pub open spec fn is_word_start(c: char) -> bool {
    ('a' <= c && c <= 'z') || ('A' <= c && c <= 'Z') || c == '_'
}

/// Whether a character can stand in a bare word.
pub open spec fn is_word_char(c: char) -> bool {
    is_word_start(c) || is_digit(c)
}

/// The number that a digit stands for.
pub open spec fn digit_value(c: char) -> nat {
    (c as u32 - '0' as u32) as nat
}

/// The number `acc` with the digits of `digits` written behind it.
pub open spec fn append_digits(acc: nat, digits: Seq<char>) -> nat
    decreases digits.len(),
{
    if digits.len() == 0 {
        acc
    } else {
        append_digits(acc, digits.drop_last()) * 10 + digit_value(digits.last())
    }
}

/// The number that a sequence of digits stands for.
pub open spec fn digits_value(digits: Seq<char>) -> nat {
    append_digits(0, digits)
}

/// Whether every character is a digit.
pub open spec fn all_digits(s: Seq<char>) -> bool {
    forall|i: int| 0 <= i < s.len() ==> is_digit(#[trigger] s[i])
}

/// The first position at or after `pos` that holds no digit.
pub open spec fn digits_end(s: Seq<char>, pos: int) -> int
    decreases s.len() - pos,
{
    if 0 <= pos < s.len() && is_digit(s[pos]) {
        digits_end(s, pos + 1)
    } else {
        pos
    }
}

/// The first position at or after `pos` that holds no blank.
pub open spec fn skip_spaces(s: Seq<char>, pos: int) -> int
    decreases s.len() - pos,
{
    if 0 <= pos < s.len() && is_space(s[pos]) {
        skip_spaces(s, pos + 1)
    } else {
        pos
    }
}

/// The end of the token that starts at `pos`: the first position at or
/// after it that holds a delimiter.
pub open spec fn token_end(s: Seq<char>, pos: int) -> int
    decreases s.len() - pos,
{
    if 0 <= pos < s.len() && !is_delimiter(s[pos]) {
        token_end(s, pos + 1)
    } else {
        pos
    }
}

/// The position of the first double quote at or after `pos`.
pub open spec fn quote_at(s: Seq<char>, pos: int) -> Option<int>
    decreases s.len() - pos,
{
    if pos < 0 || pos >= s.len() {
        None
    } else if s[pos] == '"' {
        Some(pos)
    } else {
        quote_at(s, pos + 1)
    }
}

/// Whether a token is a bare word: an identifier other than `_`.
pub open spec fn is_bare_word(tok: Seq<char>) -> bool {
    &&& tok.len() > 0
    &&& is_word_start(tok[0])
    &&& forall|i: int| 0 <= i < tok.len() ==> is_word_char(#[trigger] tok[i])
    &&& tok != seq!['_']
}

/// The decimal `(-1)^negative * coefficient / 10^scale`, if it can be
/// held: in lowest terms, its coefficient fits 64 bits and its scale 16.
pub open spec fn decimal_value(negative: bool, coefficient: nat, scale: nat) -> Option<Value> {
    let (n, c, s) = lowest_terms(negative, coefficient, scale);
    if c <= u64::MAX && s <= u16::MAX {
        Some(Value::Float { negative: n, coefficient: c, scale: s })
    } else {
        None
    }
}

/// The value of a numeric token.
///
/// Digits, with an optional minus sign before them, are an integer if
/// the number fits 32 bits, and a decimal otherwise. Digits, a point and
/// more digits are a decimal.
pub open spec fn number_value(tok: Seq<char>) -> Option<Value> {
    let negative = tok.len() > 0 && tok[0] == '-';
    let body = if negative {
        tok.skip(1)
    } else {
        tok
    };
    let point = digits_end(body, 0);
    let whole = body.take(point);
    if point == 0 {
        None
    } else if point == body.len() {
        let n = digits_value(whole);
        let v = if negative {
            -n
        } else {
            n as int
        };
        if i32::MIN <= v <= i32::MAX {
            Some(Value::Int(v))
        } else {
            decimal_value(negative, n, 0)
        }
    } else if body[point] == '.' && point + 1 < body.len() && all_digits(body.skip(point + 1)) {
        let fraction = body.skip(point + 1);
        decimal_value(negative, digits_value(whole + fraction), fraction.len())
    } else {
        None
    }
}

/// The value of a token: `_` is the wildcard, a bare word is a string,
/// and anything else must be a number.
pub open spec fn token_value(tok: Seq<char>) -> Option<Value> {
    if tok == seq!['_'] {
        Some(Value::Any)
    } else if is_bare_word(tok) {
        Some(Value::Str(tok))
    } else {
        number_value(tok)
    }
}

/// The element that starts at `pos`, and the position behind it.
pub open spec fn element_at(s: Seq<char>, pos: int) -> Option<(Value, int)>
    decreases s.len() - pos, 0nat,
{
    if pos < 0 || pos >= s.len() {
        None
    } else if s[pos] == '[' {
        match items_at(s, pos + 1) {
            Some((items, end)) => Some((Value::Tup(items), end)),
            None => None,
        }
    } else if s[pos] == '"' {
        match quote_at(s, pos + 1) {
            Some(q) => Some((Value::Str(s.subrange(pos + 1, q)), q + 1)),
            None => None,
        }
    } else {
        let end = token_end(s, pos);
        match token_value(s.subrange(pos, end)) {
            Some(v) => Some((v, end)),
            None => None,
        }
    }
}

/// The elements of the tuple whose opening bracket stands just before
/// `pos`, and the position behind its closing bracket.
pub open spec fn items_at(s: Seq<char>, pos: int) -> Option<(Seq<Value>, int)>
    decreases s.len() - pos, 3nat,
{
    if pos < 0 || pos >= s.len() {
        None
    } else if is_space(s[pos]) {
        items_at(s, pos + 1)
    } else if s[pos] == ']' {
        Some((Seq::empty(), pos + 1))
    } else {
        more_items_at(s, pos)
    }
}

/// The elements of a tuple from `pos` on, where an element must come
/// next, and the position behind the closing bracket.
pub open spec fn more_items_at(s: Seq<char>, pos: int) -> Option<(Seq<Value>, int)>
    decreases s.len() - pos, 1nat,
{
    if pos < 0 || pos >= s.len() {
        None
    } else if is_space(s[pos]) {
        more_items_at(s, pos + 1)
    } else {
        match element_at(s, pos) {
            Some((v, next)) => if next <= pos || next > s.len() {
                None
            } else {
                match rest_items_at(s, next) {
                    Some((items, end)) => Some((seq![v] + items, end)),
                    None => None,
                }
            },
            None => None,
        }
    }
}

/// The elements of a tuple from `pos` on, where a comma or the closing
/// bracket must come next, and the position behind the closing bracket.
pub open spec fn rest_items_at(s: Seq<char>, pos: int) -> Option<(Seq<Value>, int)>
    decreases s.len() - pos, 2nat,
{
    if pos < 0 || pos >= s.len() {
        None
    } else if is_space(s[pos]) {
        rest_items_at(s, pos + 1)
    } else if s[pos] == ']' {
        Some((Seq::empty(), pos + 1))
    } else if s[pos] == ',' {
        more_items_at(s, pos + 1)
    } else {
        None
    }
}

/// The element that a text spells, blanks around it aside.
pub open spec fn element_of(s: Seq<char>) -> Option<Value> {
    match element_at(s, skip_spaces(s, 0)) {
        Some((v, end)) => if skip_spaces(s, end) == s.len() {
            Some(v)
        } else {
            None
        },
        None => None,
    }
}

/// The keyword that starts at `pos`, and the position behind it.
pub open spec fn keyword_at(s: Seq<char>, pos: int) -> Option<(Keyword, int)> {
    if 0 <= pos && pos + 2 <= s.len() && s[pos] == 'i' && s[pos + 1] == 'n' {
        Some((Keyword::In, pos + 2))
    } else if 0 <= pos && pos + 2 <= s.len() && s[pos] == 'r' && s[pos + 1] == 'd' {
        Some((Keyword::Rd, pos + 2))
    } else if 0 <= pos && pos + 3 <= s.len() && s[pos] == 'o' && s[pos + 1] == 'u' && s[pos + 2]
        == 't' {
        Some((Keyword::Out, pos + 3))
    } else {
        None
    }
}

/// The statement that a line spells.
pub open spec fn statement_of(s: Seq<char>) -> Option<StatementView> {
    match keyword_at(s, skip_spaces(s, 0)) {
        Some((keyword, after)) => {
            let open = skip_spaces(s, after);
            if 0 <= open < s.len() && s[open] == '[' {
                match items_at(s, open + 1) {
                    Some((items, end)) => if skip_spaces(s, end) == s.len() {
                        Some(StatementView::new(keyword, items))
                    } else {
                        None
                    },
                    None => None,
                }
            } else {
                None
            }
        },
        None => None,
    }
}

/// Writing `y` behind `x` behind `acc` is writing `x + y` behind `acc`.
pub proof fn lemma_append_digits_concat(acc: nat, x: Seq<char>, y: Seq<char>)
    ensures
        append_digits(append_digits(acc, x), y) == append_digits(acc, x + y),
    decreases y.len(),
{
    if y.len() == 0 {
        assert(x + y =~= x);
    } else {
        lemma_append_digits_concat(acc, x, y.drop_last());
        assert((x + y).drop_last() =~= x + y.drop_last());
    }
}

/// A number does not shrink when more digits are written behind it.
pub proof fn lemma_append_digits_grows(acc: nat, s: Seq<char>, mid: int)
    requires
        0 <= mid <= s.len(),
    ensures
        append_digits(acc, s.take(mid)) <= append_digits(acc, s),
    decreases s.len(),
{
    if mid == s.len() {
        assert(s.take(mid) =~= s);
    } else {
        lemma_append_digits_grows(acc, s.drop_last(), mid);
        assert(s.drop_last().take(mid) =~= s.take(mid));
    }
}

/// Zeros at the end of a fraction do not change the number.
pub proof fn lemma_trailing_zero(negative: bool, digits: Seq<char>, scale: nat)
    requires
        digits.len() > 0,
        digits.last() == '0',
    ensures
        lowest_terms(negative, digits_value(digits), scale + 1) == lowest_terms(
            negative,
            digits_value(digits.drop_last()),
            scale,
        ),
{
    let w = digits_value(digits.drop_last());
    assert(digits_value(digits) == w * 10);
    if w != 0 {
        assert((w * 10) % 10 == 0 && (w * 10) / 10 == w) by (nonlinear_arith);
    }
}

/// The characters of a string.
pub(crate) fn chars_of(s: &str) -> (v: Vec<char>)
    ensures
        v@ == s@,
{
    let mut v: Vec<char> = Vec::new();
    for c in it: s.chars()
        invariant
            v@ == it.seq().take(it.index() as int),
            it.seq() == s@,
    {
        v.push(c);
    }
    v
}

fn is_space_char(c: char) -> (b: bool)
    ensures
        b == is_space(c),
{
    c == ' ' || c == '\t' || c == '\n' || c == '\r'
}

fn is_delimiter_char(c: char) -> (b: bool)
    ensures
        b == is_delimiter(c),
{
    is_space_char(c) || c == ',' || c == '[' || c == ']' || c == '"'
}

fn is_digit_char(c: char) -> (b: bool)
    ensures
        b == is_digit(c),
{
    '0' <= c && c <= '9'
}

fn is_word_start_char(c: char) -> (b: bool)
    ensures
        b == is_word_start(c),
{
    ('a' <= c && c <= 'z') || ('A' <= c && c <= 'Z') || c == '_'
}

fn digit_of(c: char) -> (d: u64)
    requires
        is_digit(c),
    ensures
        d == digit_value(c),
        d <= 9,
{
    (c as u32 - '0' as u32) as u64
}

fn skip_spaces_in(s: &[char], pos: usize) -> (r: usize)
    requires
        pos <= s@.len(),
    ensures
        r == skip_spaces(s@, pos as int),
        pos <= r <= s@.len(),
        r < s@.len() ==> !is_space(s@[r as int]),
{
    let mut i: usize = pos;
    while i < s.len() && is_space_char(s[i])
        invariant
            pos <= i <= s@.len(),
            skip_spaces(s@, pos as int) == skip_spaces(s@, i as int),
        decreases s@.len() - i,
    {
        i += 1;
    }
    i
}

fn token_end_in(s: &[char], pos: usize) -> (r: usize)
    requires
        pos <= s@.len(),
    ensures
        r == token_end(s@, pos as int),
        pos <= r <= s@.len(),
{
    let mut i: usize = pos;
    while i < s.len() && !is_delimiter_char(s[i])
        invariant
            pos <= i <= s@.len(),
            token_end(s@, pos as int) == token_end(s@, i as int),
        decreases s@.len() - i,
    {
        i += 1;
    }
    i
}

fn quote_in(s: &[char], pos: usize) -> (r: Option<usize>)
    requires
        pos <= s@.len(),
    ensures
        match r {
            Some(q) => quote_at(s@, pos as int) == Some(q as int) && pos <= q < s@.len(),
            None => quote_at(s@, pos as int) is None,
        },
{
    let mut i: usize = pos;
    while i < s.len()
        invariant
            pos <= i <= s@.len(),
            quote_at(s@, pos as int) == quote_at(s@, i as int),
        decreases s@.len() - i,
    {
        if s[i] == '"' {
            return Some(i);
        }
        i += 1;
    }
    None
}

fn digits_end_in(s: &[char], pos: usize) -> (r: usize)
    requires
        pos <= s@.len(),
    ensures
        r == digits_end(s@, pos as int),
        pos <= r <= s@.len(),
        forall|j: int| pos <= j < r ==> is_digit(#[trigger] s@[j]),
        r < s@.len() ==> !is_digit(s@[r as int]),
{
    let mut i: usize = pos;
    while i < s.len() && is_digit_char(s[i])
        invariant
            pos <= i <= s@.len(),
            digits_end(s@, pos as int) == digits_end(s@, i as int),
            forall|j: int| pos <= j < i ==> is_digit(#[trigger] s@[j]),
        decreases s@.len() - i,
    {
        i += 1;
    }
    i
}

/// Writes the digits of `s` from `from` up to `to` behind `acc`; `None`
/// if the number does not fit 64 bits.
fn read_digits(s: &[char], from: usize, to: usize, acc: u64) -> (r: Option<u64>)
    requires
        from <= to <= s@.len(),
        forall|j: int| from <= j < to ==> is_digit(#[trigger] s@[j]),
    ensures
        match r {
            Some(v) => v == append_digits(acc as nat, s@.subrange(from as int, to as int)),
            None => append_digits(acc as nat, s@.subrange(from as int, to as int)) > u64::MAX,
        },
{
    let ghost digits = s@.subrange(from as int, to as int);
    let mut v: u64 = acc;
    let mut i: usize = from;
    assert(s@.subrange(from as int, from as int) =~= Seq::<char>::empty());
    while i < to
        invariant
            from <= i <= to <= s@.len(),
            digits == s@.subrange(from as int, to as int),
            forall|j: int| from <= j < to ==> is_digit(#[trigger] s@[j]),
            v == append_digits(acc as nat, s@.subrange(from as int, i as int)),
        decreases to - i,
    {
        let d = digit_of(s[i]);
        proof {
            let next = s@.subrange(from as int, i + 1);
            assert(next.drop_last() =~= s@.subrange(from as int, i as int));
            assert(next.last() == s@[i as int]);
            assert(next =~= digits.take(i + 1 - from));
            lemma_append_digits_grows(acc as nat, digits, i + 1 - from);
        }
        let shifted = match v.checked_mul(10) {
            Some(x) => x,
            None => {
                return None;
            },
        };
        v = match shifted.checked_add(d) {
            Some(x) => x,
            None => {
                return None;
            },
        };
        i += 1;
    }
    Some(v)
}

pub(crate) fn is_bare_word_in(tok: &[char]) -> (b: bool)
    ensures
        b == is_bare_word(tok@),
{
    if tok.len() == 0 || !is_word_start_char(tok[0]) {
        return false;
    }
    if tok.len() == 1 && tok[0] == '_' {
        assert(tok@ =~= seq!['_']);
        return false;
    }
    let mut i: usize = 0;
    while i < tok.len()
        invariant
            i <= tok@.len(),
            forall|j: int| 0 <= j < i ==> is_word_char(#[trigger] tok@[j]),
        decreases tok@.len() - i,
    {
        if !(is_word_start_char(tok[i]) || is_digit_char(tok[i])) {
            return false;
        }
        i += 1;
    }
    assert(tok@ != seq!['_']) by {
        if tok@.len() == 1 {
            assert(seq!['_'][0] == '_');
        } else {
            assert(seq!['_'].len() == 1);
        }
    }
    true
}

/// The value of an optional element.
pub open spec fn element_option_view(e: Option<E>) -> Option<Value> {
    match e {
        Some(e) => Some(e@),
        None => None,
    }
}

/// The number that a token spells.
fn number(tok: &[char]) -> (r: Option<E>)
    ensures
        element_option_view(r) == number_value(tok@),
{
    let negative = tok.len() > 0 && tok[0] == '-';
    let body = if negative {
        vstd::slice::slice_subrange(tok, 1, tok.len())
    } else {
        tok
    };
    assert(body@ =~= if negative {
        tok@.skip(1)
    } else {
        tok@
    });
    let point = digits_end_in(body, 0);
    if point == 0 {
        return None;
    }
    let ghost whole = body@.take(point as int);
    assert(whole =~= body@.subrange(0, point as int));
    if point == body.len() {
        return match read_digits(body, 0, point, 0) {
            Some(n) => {
                if negative && n <= 0x8000_0000 {
                    Some(E::I((-(n as i64)) as i32))
                } else if !negative && n <= 0x7fff_ffff {
                    Some(E::I(n as i32))
                } else {
                    Some(E::D(Decimal::new(negative, n, 0)))
                }
            },
            None => None,
        };
    }
    if body[point] != '.' || point + 1 >= body.len() {
        return None;
    }
    let ghost fraction = body@.skip(point + 1);
    let end = digits_end_in(body, point + 1);
    if end != body.len() {
        assert(!is_digit(fraction[end - point - 1]));
        return None;
    }
    assert(all_digits(fraction)) by {
        assert forall|i: int| 0 <= i < fraction.len() implies is_digit(#[trigger] fraction[i]) by {
            assert(fraction[i] == body@[point + 1 + i]);
        }
    }
    let mut kept: usize = body.len();
    assert(body@.subrange(point + 1, kept as int) =~= fraction);
    while kept > point + 1 && body[kept - 1] == '0'
        invariant
            point + 1 <= kept <= body@.len(),
            whole == body@.subrange(0, point as int),
            lowest_terms(
                negative,
                digits_value(whole + body@.subrange(point + 1, kept as int)),
                (kept - point - 1) as nat,
            ) == lowest_terms(negative, digits_value(whole + fraction), fraction.len()),
        decreases kept,
    {
        proof {
            let longer = whole + body@.subrange(point + 1, kept as int);
            assert(longer.drop_last() =~= whole + body@.subrange(point + 1, kept - 1));
            lemma_trailing_zero(negative, longer, (kept - point - 2) as nat);
        }
        kept -= 1;
    }
    let ghost short = body@.subrange(point + 1, kept as int);
    proof {
        lemma_append_digits_concat(0, whole, short);
    }
    let high = match read_digits(body, 0, point, 0) {
        Some(x) => x,
        None => {
            proof {
                assert((whole + short).take(point as int) =~= whole);
                lemma_append_digits_grows(0, whole + short, point as int);
                lemma_unreduced(negative, whole + short, short.len());
            }
            return None;
        },
    };
    match read_digits(body, point + 1, kept, high) {
        Some(c) => {
            proof {
                if c != 0 {
                    lemma_unreduced(negative, whole + short, short.len());
                }
            }
            if c == 0 {
                Some(E::D(Decimal::new(negative, 0, 0)))
            } else if kept - point - 1 <= 0xffff {
                Some(E::D(Decimal::new(negative, c, (kept - point - 1) as u16)))
            } else {
                None
            }
        },
        None => {
            proof {
                lemma_unreduced(negative, whole + short, short.len());
            }
            None
        },
    }
}

/// A decimal whose last fraction digit is not zero is in lowest terms,
/// unless it is zero.
pub proof fn lemma_unreduced(negative: bool, digits: Seq<char>, scale: nat)
    requires
        scale <= digits.len(),
        all_digits(digits),
        scale > 0 ==> digits.last() != '0',
        digits_value(digits) != 0,
    ensures
        lowest_terms(negative, digits_value(digits), scale) == (negative, digits_value(digits), scale),
{
    if scale > 0 {
        let w = digits_value(digits.drop_last());
        let d = digit_value(digits.last());
        assert(is_digit(digits[digits.len() - 1]));
        assert(0 < d <= 9);
        assert((w * 10 + d) % 10 != 0) by (nonlinear_arith)
            requires
                0 < d <= 9,
        ;
    }
}

/// An optional run of elements with more elements put before it.
pub open spec fn prepend(items: Seq<Value>, rest: Option<(Seq<Value>, int)>) -> Option<(Seq<Value>, int)> {
    match rest {
        Some((more, end)) => Some((items + more, end)),
        None => None,
    }
}

/// Blanks before the next part of a tuple change nothing.
pub proof fn lemma_spaces_are_skipped(s: Seq<char>, pos: int)
    requires
        0 <= pos,
    ensures
        items_at(s, pos) == items_at(s, skip_spaces(s, pos)),
        more_items_at(s, pos) == more_items_at(s, skip_spaces(s, pos)),
        rest_items_at(s, pos) == rest_items_at(s, skip_spaces(s, pos)),
    decreases s.len() - pos,
{
    if pos < s.len() && is_space(s[pos]) {
        lemma_spaces_are_skipped(s, pos + 1);
    }
}

/// An empty token has no value.
pub proof fn lemma_empty_token()
    ensures
        token_value(Seq::<char>::empty()) is None,
{
    assert(seq!['_'].len() == 1);
}

/// The value of the token that spans `from` up to `to`.
fn token(line: &str, chars: &[char], from: usize, to: usize) -> (r: Option<E>)
    requires
        chars@ == line@,
        from <= to <= chars@.len(),
    ensures
        element_option_view(r) == token_value(chars@.subrange(from as int, to as int)),
{
    let tok = vstd::slice::slice_subrange(chars, from, to);
    if tok.len() == 1 && tok[0] == '_' {
        assert(tok@ =~= seq!['_']);
        return Some(E::Any);
    }
    assert(tok@ != seq!['_']) by {
        if tok@.len() == 1 {
            assert(seq!['_'][0] == '_');
        } else {
            assert(seq!['_'].len() == 1);
        }
    }
    if is_bare_word_in(tok) {
        return Some(E::S(line.substring_char(from, to).to_owned()));
    }
    number(tok)
}

/// The element that starts at `pos`, and the position behind it.
fn element(line: &str, chars: &[char], pos: usize) -> (r: Result<(E, usize), ParseError>)
    requires
        chars@ == line@,
        pos <= chars@.len(),
    ensures
        match r {
            Ok((e, next)) => element_at(chars@, pos as int) == Some((e@, next as int)) && pos < next
                <= chars@.len(),
            Err(_) => element_at(chars@, pos as int) is None,
        },
    decreases chars@.len() - pos, 0nat,
{
    if pos >= chars.len() {
        return Err(ParseError);
    }
    if chars[pos] == '[' {
        return match items(line, chars, pos + 1) {
            Ok((t, end)) => Ok((E::T(t), end)),
            Err(e) => Err(e),
        };
    }
    if chars[pos] == '"' {
        return match quote_in(chars, pos + 1) {
            Some(q) => Ok((E::S(line.substring_char(pos + 1, q).to_owned()), q + 1)),
            None => Err(ParseError),
        };
    }
    let end = token_end_in(chars, pos);
    proof {
        if end == pos {
            assert(chars@.subrange(pos as int, end as int) =~= Seq::<char>::empty());
            lemma_empty_token();
        }
    }
    match token(line, chars, pos, end) {
        Some(e) => Ok((e, end)),
        None => Err(ParseError),
    }
}

/// The tuple whose opening bracket stands just before `pos`, and the
/// position behind its closing bracket.
fn items(line: &str, chars: &[char], pos: usize) -> (r: Result<(Tuple, usize), ParseError>)
    requires
        chars@ == line@,
        pos <= chars@.len(),
    ensures
        match r {
            Ok((t, end)) => items_at(chars@, pos as int) == Some((t@, end as int)) && pos < end
                <= chars@.len(),
            Err(_) => items_at(chars@, pos as int) is None,
        },
    decreases chars@.len() - pos, 3nat,
{
    let ghost s = chars@;
    let mut elems: Vec<E> = Vec::new();
    let mut at: usize = skip_spaces_in(chars, pos);
    proof {
        lemma_spaces_are_skipped(s, pos as int);
    }
    if at >= chars.len() {
        return Err(ParseError);
    }
    if chars[at] == ']' {
        let t = Tuple::new(elems);
        assert(t@ =~= Seq::<Value>::empty());
        return Ok((t, at + 1));
    }
    proof {
        if let Some((more, end)) = more_items_at(s, at as int) {
            assert(values_of(elems@) + more =~= more);
        }
    }
    loop
        invariant
            s == chars@,
            chars@ == line@,
            pos <= at <= chars@.len(),
            at < chars@.len() ==> !is_space(s[at as int]),
            items_at(s, pos as int) == prepend(values_of(elems@), more_items_at(s, at as int)),
        decreases chars@.len() - at,
    {
        let (e, next) = match element(line, chars, at) {
            Ok(found) => found,
            Err(e) => {
                return Err(e);
            },
        };
        let ghost before = values_of(elems@);
        elems.push(e);
        assert(values_of(elems@) =~= before + seq![e@]);
        let p = skip_spaces_in(chars, next);
        proof {
            lemma_spaces_are_skipped(s, next as int);
            lemma_spaces_are_skipped(s, p + 1);
        }
        if p >= chars.len() {
            return Err(ParseError);
        }
        if chars[p] == ']' {
            let t = Tuple::new(elems);
            assert(before + (seq![e@] + Seq::<Value>::empty()) =~= t@);
            return Ok((t, p + 1));
        }
        if chars[p] != ',' {
            return Err(ParseError);
        }
        proof {
            let rest = more_items_at(s, p + 1);
            if let Some((more, end)) = rest {
                assert(before + (seq![e@] + more) =~= values_of(elems@) + more);
            }
        }
        at = skip_spaces_in(chars, p + 1);
    }
}

/// The keyword that starts at `pos`, and the position behind it.
fn keyword(chars: &[char], pos: usize) -> (r: Option<(Keyword, usize)>)
    requires
        pos <= chars@.len(),
    ensures
        match r {
            Some((k, after)) => keyword_at(chars@, pos as int) == Some((k, after as int)) && after
                <= chars@.len(),
            None => keyword_at(chars@, pos as int) is None,
        },
{
    let left = chars.len() - pos;
    if left >= 2 && chars[pos] == 'i' && chars[pos + 1] == 'n' {
        Some((Keyword::In, pos + 2))
    } else if left >= 2 && chars[pos] == 'r' && chars[pos + 1] == 'd' {
        Some((Keyword::Rd, pos + 2))
    } else if left >= 3 && chars[pos] == 'o' && chars[pos + 1] == 'u' && chars[pos + 2] == 't' {
        Some((Keyword::Out, pos + 3))
    } else {
        None
    }
}

/// Parses one element: the wildcard `_`, an integer, a decimal, a bare
/// or quoted string, or a bracketed tuple of elements.
pub fn parse_element(text: &str) -> (r: Result<E, ParseError>)
    ensures
        match r {
            Ok(e) => element_of(text@) == Some(e@),
            Err(_) => element_of(text@) is None,
        },
{
    let owned = chars_of(text);
    let chars = owned.as_slice();
    let start = skip_spaces_in(chars, 0);
    match element(text, chars, start) {
        Ok((e, end)) => {
            if skip_spaces_in(chars, end) == chars.len() {
                Ok(e)
            } else {
                Err(ParseError)
            }
        },
        Err(e) => Err(e),
    }
}

/// Parses a command line into a statement.
pub fn statement(line: &str) -> (r: Result<Statement, ParseError>)
    ensures
        match r {
            Ok(st) => statement_of(line@) == Some(st@),
            Err(_) => statement_of(line@) is None,
        },
{
    let owned = chars_of(line);
    let chars = owned.as_slice();
    let start = skip_spaces_in(chars, 0);
    let (word, after) = match keyword(chars, start) {
        Some(found) => found,
        None => {
            return Err(ParseError);
        },
    };
    let open = skip_spaces_in(chars, after);
    if open >= chars.len() || chars[open] != '[' {
        return Err(ParseError);
    }
    match items(line, chars, open + 1) {
        Ok((t, end)) => {
            if skip_spaces_in(chars, end) == chars.len() {
                Ok(Statement::new(word, t))
            } else {
                Err(ParseError)
            }
        },
        Err(e) => Err(e),
    }
}

} // verus!
