//! The text of tuples, as it is written to a client.
//!
//! A tuple is written as its elements between brackets, separated by a
//! comma and a space. An integer is written in decimal, a decimal with its
//! point and at least one digit on either side of it, the wildcard as
//! `_`, and a string bare if it is a bare word of the grammar and between
//! double quotes if it is not.

use crate::ast::{Keyword, Statement, StatementView};
use crate::grammar::is_bare_word;
use crate::tuple::{Decimal, Tuple, Value, E};
use vstd::prelude::*;
use vstd::string::{StrSliceExecFns, StringExecFns};

verus! {

/// The character of a digit.
pub open spec fn digit_char(d: nat) -> char {
    seq!['0', '1', '2', '3', '4', '5', '6', '7', '8', '9'][d as int]
}

/// A natural number in decimal, without leading zeros.
pub open spec fn nat_text(n: nat) -> Seq<char>
    decreases n,
{
    if n < 10 {
        seq![digit_char(n)]
    } else {
        nat_text(n / 10).push(digit_char(n % 10))
    }
}

/// An integer in decimal, with a minus sign if it is below zero.
pub open spec fn int_text(i: int) -> Seq<char> {
    if i < 0 {
        seq!['-'] + nat_text((-i) as nat)
    } else {
        nat_text(i as nat)
    }
}

/// A run of zeros.
pub open spec fn zeros(n: nat) -> Seq<char> {
    Seq::new(n, |i: int| '0')
}

/// The digits of a decimal before its point: those of its coefficient
/// that stand left of the last `scale`, or a zero where none does.
pub open spec fn decimal_whole(coefficient: nat, scale: nat) -> Seq<char> {
    let digits = nat_text(coefficient);
    if digits.len() > scale {
        digits.take(digits.len() - scale)
    } else {
        seq!['0']
    }
}

/// The digits of a decimal behind its point: the last `scale` digits of
/// its coefficient, with zeros before them where it has fewer, or a zero
/// where the scale is zero.
pub open spec fn decimal_fraction(coefficient: nat, scale: nat) -> Seq<char> {
    let digits = nat_text(coefficient);
    if scale == 0 {
        seq!['0']
    } else if digits.len() > scale {
        digits.skip(digits.len() - scale)
    } else {
        zeros((scale - digits.len()) as nat) + digits
    }
}

/// The decimal `(-1)^negative * coefficient / 10^scale`: a minus sign if
/// it is negative, the digits before the point, the point, and the
/// digits behind it.
pub open spec fn decimal_text(negative: bool, coefficient: nat, scale: nat) -> Seq<char> {
    let sign = if negative {
        seq!['-']
    } else {
        Seq::empty()
    };
    sign + decimal_whole(coefficient, scale) + seq!['.'] + decimal_fraction(coefficient, scale)
}

/// The text of a string element.
pub open spec fn str_text(s: Seq<char>) -> Seq<char> {
    if is_bare_word(s) {
        s
    } else {
        seq!['"'] + s + seq!['"']
    }
}

/// The text of an element.
pub open spec fn value_text(v: Value) -> Seq<char>
    decreases v, 0nat,
{
    match v {
        Value::Any => seq!['_'],
        Value::Int(i) => int_text(i),
        Value::Float { negative, coefficient, scale } => decimal_text(negative, coefficient, scale),
        Value::Str(s) => str_text(s),
        Value::Tup(items) => tuple_text(items),
    }
}

/// The texts of the elements, separated by a comma and a space.
pub open spec fn items_text(items: Seq<Value>) -> Seq<char>
    decreases items, 0nat,
{
    if items.len() == 0 {
        Seq::empty()
    } else if items.len() == 1 {
        value_text(items[0])
    } else {
        items_text(items.drop_last()) + seq![',', ' '] + value_text(items.last())
    }
}

/// The text of a tuple.
pub open spec fn tuple_text(items: Seq<Value>) -> Seq<char>
    decreases items, 1nat,
{
    seq!['['] + items_text(items) + seq![']']
}

/// The text of a keyword.
pub open spec fn keyword_text(keyword: Keyword) -> Seq<char> {
    match keyword {
        Keyword::In => seq!['i', 'n'],
        Keyword::Rd => seq!['r', 'd'],
        Keyword::Out => seq!['o', 'u', 't'],
    }
}

/// The text of a statement: its keyword, a space, and its tuple.
pub open spec fn statement_text(st: StatementView) -> Seq<char> {
    keyword_text(st.keyword()) + seq![' '] + tuple_text(st.tuple())
}

/// The digit `d` as a string.
fn digit_str(d: u64) -> (s: &'static str)
    requires
        d < 10,
    ensures
        s@ == seq![digit_char(d as nat)],
{
    proof {
        reveal_strlit("0");
        reveal_strlit("1");
        reveal_strlit("2");
        reveal_strlit("3");
        reveal_strlit("4");
        reveal_strlit("5");
        reveal_strlit("6");
        reveal_strlit("7");
        reveal_strlit("8");
        reveal_strlit("9");
    }
    let s = if d == 0 {
        "0"
    } else if d == 1 {
        "1"
    } else if d == 2 {
        "2"
    } else if d == 3 {
        "3"
    } else if d == 4 {
        "4"
    } else if d == 5 {
        "5"
    } else if d == 6 {
        "6"
    } else if d == 7 {
        "7"
    } else if d == 8 {
        "8"
    } else {
        "9"
    };
    assert(s@ =~= seq![digit_char(d as nat)]);
    s
}

/// Writes a natural number behind `out`.
fn push_nat(out: &mut String, n: u64)
    ensures
        final(out)@ == old(out)@ + nat_text(n as nat),
    decreases n,
{
    if n >= 10 {
        push_nat(out, n / 10);
    }
    out.append(digit_str(n % 10));
    assert(out@ =~= old(out)@ + nat_text(n as nat));
}

/// Writes an integer behind `out`.
fn push_int(out: &mut String, i: i32)
    ensures
        final(out)@ == old(out)@ + int_text(i as int),
{
    if i < 0 {
        proof {
            reveal_strlit("-");
        }
        out.append("-");
        push_nat(out, (-(i as i64)) as u64);
        assert(out@ =~= old(out)@ + int_text(i as int));
    } else {
        push_nat(out, i as u64);
    }
}

/// Writes a decimal behind `out`.
fn push_decimal(out: &mut String, d: &Decimal)
    ensures
        final(out)@ == old(out)@ + decimal_text(
            d.spec_negative(),
            d.spec_coefficient() as nat,
            d.spec_scale() as nat,
        ),
{
    proof {
        reveal_strlit("-");
        reveal_strlit(".");
        reveal_strlit(".0");
        reveal_strlit("0.");
        reveal_strlit("0");
    }
    let ghost sign = if d.spec_negative() {
        seq!['-']
    } else {
        Seq::<char>::empty()
    };
    if d.negative() {
        out.append("-");
    }
    assert(out@ =~= old(out)@ + sign);
    let mut digits = String::new();
    push_nat(&mut digits, d.coefficient());
    assert(digits@ =~= nat_text(d.spec_coefficient() as nat));
    let len = digits.as_str().unicode_len();
    let scale = d.scale() as usize;
    if scale == 0 {
        out.append(digits.as_str());
        out.append(".0");
        assert(digits@.take(digits@.len() as int) =~= digits@);
        assert(out@ =~= old(out)@ + (sign + digits@ + seq!['.'] + seq!['0']));
    } else if len > scale {
        out.append(digits.as_str().substring_char(0, len - scale));
        out.append(".");
        out.append(digits.as_str().substring_char(len - scale, len));
        assert(out@ =~= old(out)@ + (sign + digits@.take(len - scale) + seq!['.'] + digits@.skip(
            len - scale,
        )));
    } else {
        out.append("0.");
        let ghost before = out@;
        let mut i: usize = 0;
        while i < scale - len
            invariant
                i <= scale - len,
                len <= scale,
                out@ == before + zeros(i as nat),
            decreases scale - len - i,
        {
            proof {
                reveal_strlit("0");
            }
            out.append("0");
            i += 1;
            assert(out@ =~= before + zeros(i as nat));
        }
        out.append(digits.as_str());
        assert(out@ =~= old(out)@ + (sign + seq!['0'] + seq!['.'] + (zeros((scale - len) as nat)
            + digits@)));
    }
}

/// Writes a string element behind `out`.
fn push_str(out: &mut String, s: &String)
    ensures
        final(out)@ == old(out)@ + str_text(s@),
{
    let chars = crate::grammar::chars_of(s.as_str());
    if crate::grammar::is_bare_word_in(chars.as_slice()) {
        out.append(s.as_str());
    } else {
        proof {
            reveal_strlit("\"");
        }
        out.append("\"");
        out.append(s.as_str());
        out.append("\"");
        assert(out@ =~= old(out)@ + (seq!['"'] + s@ + seq!['"']));
    }
}

/// Writes an element behind `out`.
fn push_element(out: &mut String, e: &E)
    ensures
        final(out)@ == old(out)@ + value_text(e@),
    decreases e, 0nat,
{
    match e {
        E::Any => {
            proof {
                reveal_strlit("_");
            }
            out.append("_");
            assert(out@ =~= old(out)@ + seq!['_']);
        },
        E::I(i) => push_int(out, *i),
        E::D(d) => push_decimal(out, d),
        E::S(s) => push_str(out, s),
        E::T(t) => push_tuple(out, t),
    }
}

/// Writes a tuple behind `out`.
fn push_tuple(out: &mut String, t: &Tuple)
    ensures
        final(out)@ == old(out)@ + tuple_text(t@),
    decreases t, 1nat,
{
    proof {
        reveal_strlit("[");
        reveal_strlit("]");
        reveal_strlit(", ");
    }
    out.append("[");
    let ghost start = out@;
    let n = t.len();
    let mut i: usize = 0;
    assert(t@.take(0) =~= Seq::<Value>::empty());
    assert(out@ =~= start + items_text(t@.take(0)));
    while i < n
        invariant
            i <= n,
            n == t@.len(),
            out@ == start + items_text(t@.take(i as int)),
        decreases n - i,
    {
        if i > 0 {
            proof {
                reveal_strlit(", ");
            }
            out.append(", ");
        }
        push_element(out, t.get(i));
        proof {
            let now = t@.take(i + 1);
            assert(now.drop_last() =~= t@.take(i as int));
            assert(now.last() == t@[i as int]);
            if i == 0 {
                assert(out@ =~= start + value_text(t@[0]));
            } else {
                assert(out@ =~= start + (items_text(t@.take(i as int)) + seq![',', ' '] + value_text(
                    t@[i as int],
                )));
            }
        }
        i += 1;
    }
    assert(t@.take(n as int) =~= t@);
    out.append("]");
    assert(out@ =~= old(out)@ + (seq!['['] + items_text(t@) + seq![']']));
}

impl E {
    /// The text of the element.
    pub fn render(&self) -> (s: String)
        ensures
            s@ == value_text(self@),
    {
        let mut out = String::new();
        push_element(&mut out, self);
        assert(out@ =~= value_text(self@));
        out
    }
}

impl Tuple {
    /// The text of the tuple.
    pub fn render(&self) -> (s: String)
        ensures
            s@ == tuple_text(self@),
    {
        let mut out = String::new();
        push_tuple(&mut out, self);
        assert(out@ =~= tuple_text(self@));
        out
    }
}

impl Statement {
    /// The text of the statement.
    pub fn render(&self) -> (s: String)
        ensures
            s@ == statement_text(self@),
    {
        proof {
            reveal_strlit("in ");
            reveal_strlit("rd ");
            reveal_strlit("out ");
        }
        let mut out = String::from_str(
            match self.keyword() {
                Keyword::In => "in ",
                Keyword::Rd => "rd ",
                Keyword::Out => "out ",
            },
        );
        assert(out@ =~= keyword_text(self@.keyword()) + seq![' ']);
        push_tuple(&mut out, self.tuple());
        out
    }
}

} // verus!
