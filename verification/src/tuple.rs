//! Tuples, their elements, and wildcard-aware matching.
//!
//! Contracts speak of the mathematical value of a tuple, a `Seq<Value>`,
//! obtained with `@`.

use vstd::prelude::*;

verus! {

/// A decimal number `(-1)^negative * coefficient / 10^scale`.
///
/// Fractional literals are held exactly, as integers, in lowest terms:
/// the coefficient of a value with a fraction does not end in a zero
/// digit, and zero has neither sign nor scale. Two decimals are therefore
/// the same number exactly when their fields are equal.
#[derive(Clone, Copy, Debug, PartialEq, Eq, Structural)]
pub struct Decimal {
    negative: bool,
    coefficient: u64,
    scale: u16,
}

/// The mathematical value of an element.
pub enum Value {
    /// The wildcard.
    Any,
    /// A signed integer.
    Int(int),
    /// The decimal `(-1)^negative * coefficient / 10^scale`.
    Float { negative: bool, coefficient: nat, scale: nat },
    /// A string, as its characters.
    Str(Seq<char>),
    /// A nested tuple.
    Tup(Seq<Value>),
}

/// A tuple element.
#[derive(Debug, PartialEq)]
pub enum E {
    /// The wildcard: compatible with any single element.
    Any,
    /// A signed integer.
    I(i32),
    /// A decimal fraction.
    D(Decimal),
    /// A string.
    S(String),
    /// A nested tuple.
    T(Tuple),
}

/// An ordered, fixed-arity sequence of elements.
#[derive(Debug, PartialEq)]
pub struct Tuple {
    elems: Vec<E>,
}

/// The lowest-terms form of `coefficient / 10^scale` with the given sign.
pub open spec fn lowest_terms(negative: bool, coefficient: nat, scale: nat) -> (bool, nat, nat)
    decreases scale,
{
    if coefficient == 0 {
        (false, 0, 0)
    } else if scale > 0 && coefficient % 10 == 0 {
        lowest_terms(negative, coefficient / 10, (scale - 1) as nat)
    } else {
        (negative, coefficient, scale)
    }
}

impl Decimal {
    /// Whether the fields are in lowest terms.
    pub open spec fn is_lowest_terms(self) -> bool {
        in_lowest_terms(self.parts())
    }

    /// The sign, the coefficient and the scale.
    pub open spec fn parts(self) -> (bool, nat, nat) {
        (self.spec_negative(), self.spec_coefficient() as nat, self.spec_scale() as nat)
    }

    #[verifier::type_invariant]
    spec fn inv(self) -> bool {
        self.is_lowest_terms()
    }

    pub closed spec fn spec_negative(&self) -> bool {
        self.negative
    }

    pub closed spec fn spec_coefficient(&self) -> u64 {
        self.coefficient
    }

    pub closed spec fn spec_scale(&self) -> u16 {
        self.scale
    }

    /// The decimal `(-1)^negative * coefficient / 10^scale`, reduced to
    /// lowest terms.
    pub fn new(negative: bool, coefficient: u64, scale: u16) -> (d: Decimal)
        ensures
            d.is_lowest_terms(),
            d.parts() == lowest_terms(negative, coefficient as nat, scale as nat),
    {
        if coefficient == 0 {
            return Decimal { negative: false, coefficient: 0, scale: 0 };
        }
        let mut c: u64 = coefficient;
        let mut s: u16 = scale;
        while s > 0 && c % 10 == 0
            invariant
                c != 0,
                lowest_terms(negative, c as nat, s as nat) == lowest_terms(
                    negative,
                    coefficient as nat,
                    scale as nat,
                ),
            decreases s,
        {
            c = c / 10;
            s = s - 1;
        }
        Decimal { negative, coefficient: c, scale: s }
    }

    /// Whether the number is below zero.
    #[verifier::when_used_as_spec(spec_negative)]
    pub fn negative(&self) -> (b: bool)
        ensures
            b == self.spec_negative(),
            self.is_lowest_terms(),
    {
        proof {
            use_type_invariant(self);
        }
        self.negative
    }

    /// The digits of the number, as an integer.
    #[verifier::when_used_as_spec(spec_coefficient)]
    pub fn coefficient(&self) -> (c: u64)
        ensures
            c == self.spec_coefficient(),
            self.is_lowest_terms(),
    {
        proof {
            use_type_invariant(self);
        }
        self.coefficient
    }

    /// How many of the digits stand behind the decimal point.
    #[verifier::when_used_as_spec(spec_scale)]
    pub fn scale(&self) -> (s: u16)
        ensures
            s == self.spec_scale(),
            self.is_lowest_terms(),
    {
        proof {
            use_type_invariant(self);
        }
        self.scale
    }
}

impl View for E {
    type V = Value;

    open spec fn view(&self) -> Value
        decreases self,
    {
        match self {
            E::Any => Value::Any,
            E::I(i) => Value::Int(*i as int),
            E::D(d) => Value::Float {
                negative: d.spec_negative(),
                coefficient: d.spec_coefficient() as nat,
                scale: d.spec_scale() as nat,
            },
            E::S(s) => Value::Str(s@),
            E::T(t) => Value::Tup(t@),
        }
    }
}

impl View for Tuple {
    type V = Seq<Value>;

    closed spec fn view(&self) -> Seq<Value>
        decreases self,
    {
        Seq::new(
            self.elems@.len(),
            |i: int|
                if 0 <= i < self.elems@.len() {
                    self.elems@[i]@
                } else {
                    Value::Any
                },
        )
    }
}

/// Whether two elements are compatible: a wildcard on either side is
/// compatible with anything, nested tuples are compared by the same rule,
/// and every other pair must agree in type and value.
pub open spec fn element_matches(p: Value, c: Value) -> bool
    decreases p, 0nat,
{
    match p {
        Value::Any => true,
        Value::Tup(ps) => match c {
            Value::Any => true,
            Value::Tup(cs) => tuple_matches(ps, cs),
            _ => false,
        },
        _ => c is Any || p == c,
    }
}

/// Whether a pattern and a candidate are compatible: they have the same
/// arity and are compatible position by position.
pub open spec fn tuple_matches(p: Seq<Value>, c: Seq<Value>) -> bool
    decreases p, 1nat,
{
    &&& p.len() == c.len()
    &&& forall|i: int| 0 <= i < p.len() ==> element_matches(#[trigger] p[i], c[i])
}

/// The values of a sequence of elements, position by position.
pub open spec fn values_of(elems: Seq<E>) -> Seq<Value> {
    elems.map_values(|e: E| e@)
}

impl E {
    /// A string element.
    pub fn str(s: &str) -> (e: E)
        ensures
            e@ == Value::Str(s@),
    {
        E::S(s.to_owned())
    }

    /// Whether this element and the other are compatible.
    pub fn matches(&self, other: &E) -> (b: bool)
        ensures
            b == element_matches(self@, other@),
        decreases self,
    {
        match self {
            E::Any => true,
            E::T(p) => match other {
                E::Any => true,
                E::T(c) => p.matches(c),
                _ => false,
            },
            E::I(a) => match other {
                E::Any => true,
                E::I(b) => *a == *b,
                _ => false,
            },
            E::D(a) => match other {
                E::Any => true,
                E::D(b) => *a == *b,
                _ => false,
            },
            E::S(a) => match other {
                E::Any => true,
                E::S(b) => *a == *b,
                _ => false,
            },
        }
    }
}

impl Clone for E {
    fn clone(&self) -> (e: E)
        ensures
            e@ == self@,
        decreases self,
    {
        match self {
            E::Any => E::Any,
            E::I(i) => E::I(*i),
            E::D(d) => E::D(*d),
            E::S(s) => E::S(s.clone()),
            E::T(t) => E::T(t.clone()),
        }
    }
}

impl Tuple {
    /// The tuple of the given elements, in their order.
    pub fn new(elems: Vec<E>) -> (t: Tuple)
        ensures
            t@ == values_of(elems@),
    {
        let t = Tuple { elems };
        assert(t@ =~= values_of(t.elems@));
        t
    }

    /// The arity of the tuple.
    pub fn len(&self) -> (n: usize)
        ensures
            n == self@.len(),
    {
        self.elems.len()
    }

    /// Whether the tuple has no elements.
    pub fn is_empty(&self) -> (b: bool)
        ensures
            b == (self@.len() == 0),
    {
        self.elems.len() == 0
    }

    /// The element at a position.
    pub fn get(&self, i: usize) -> (e: &E)
        requires
            i < self@.len(),
        ensures
            e@ == self@[i as int],
            decreases_to!(self => e),
    {
        &self.elems[i]
    }

    /// Whether this tuple, as a pattern, is compatible with the candidate.
    pub fn matches(&self, other: &Tuple) -> (b: bool)
        ensures
            b == tuple_matches(self@, other@),
        decreases self,
    {
        if self.elems.len() != other.elems.len() {
            return false;
        }
        let mut i: usize = 0;
        while i < self.elems.len()
            invariant
                i <= self.elems.len(),
                self.elems.len() == other.elems.len(),
                forall|j: int| 0 <= j < i ==> element_matches(#[trigger] self@[j], other@[j]),
            decreases self.elems.len() - i,
        {
            if !self.elems[i].matches(&other.elems[i]) {
                assert(!element_matches(self@[i as int], other@[i as int]));
                return false;
            }
            i += 1;
        }
        true
    }
}

impl Clone for Tuple {
    fn clone(&self) -> (t: Tuple)
        ensures
            t@ == self@,
        decreases self,
    {
        let mut elems: Vec<E> = Vec::new();
        let mut i: usize = 0;
        while i < self.elems.len()
            invariant
                i <= self.elems.len(),
                elems.len() == i,
                forall|j: int| 0 <= j < i ==> (#[trigger] elems@[j])@ == self.elems@[j]@,
            decreases self.elems.len() - i,
        {
            elems.push(self.elems[i].clone());
            i += 1;
        }
        let t = Tuple { elems };
        assert(t@ =~= self@);
        t
    }
}

/// Whether `p` is `t` with some of its elements, at any depth, replaced
/// by the wildcard.
pub open spec fn blurs(p: Value, t: Value) -> bool
    decreases p, 0nat,
{
    ||| p is Any
    ||| p == t
    ||| p matches Value::Tup(ps) && t matches Value::Tup(ts) && blurs_each(ps, ts)
}

/// Whether `p` is `t` with some of its elements, at any depth, replaced
/// by the wildcard.
pub open spec fn blurs_each(p: Seq<Value>, t: Seq<Value>) -> bool
    decreases p, 1nat,
{
    &&& p.len() == t.len()
    &&& forall|i: int| 0 <= i < p.len() ==> blurs(#[trigger] p[i], t[i])
}

/// An element is compatible with itself.
pub proof fn lemma_element_matches_reflexive(v: Value)
    ensures
        element_matches(v, v),
    decreases v, 0nat,
{
    if let Value::Tup(vs) = v {
        lemma_matches_reflexive(vs);
    }
}

/// Matching is reflexive: every tuple is compatible with itself.
pub proof fn lemma_matches_reflexive(t: Seq<Value>)
    ensures
        tuple_matches(t, t),
    decreases t, 1nat,
{
    assert forall|i: int| 0 <= i < t.len() implies element_matches(#[trigger] t[i], t[i]) by {
        lemma_element_matches_reflexive(t[i]);
    }
}

/// An element with wildcards put in place of some of its parts is
/// compatible with the element it was made from.
pub proof fn lemma_element_wildcards_absorb(p: Value, t: Value)
    requires
        blurs(p, t),
    ensures
        element_matches(p, t),
    decreases p, 0nat,
{
    if p is Any {
    } else if p == t {
        lemma_element_matches_reflexive(p);
    } else {
        lemma_wildcards_absorb(p->Tup_0, t->Tup_0);
    }
}

/// Matching absorbs wildcards: a pattern made from a tuple by replacing
/// any of its elements with the wildcard is compatible with that tuple.
pub proof fn lemma_wildcards_absorb(p: Seq<Value>, t: Seq<Value>)
    requires
        blurs_each(p, t),
    ensures
        tuple_matches(p, t),
    decreases p, 1nat,
{
    assert forall|i: int| 0 <= i < p.len() implies element_matches(#[trigger] p[i], t[i]) by {
        lemma_element_wildcards_absorb(p[i], t[i]);
    }
}

/// Tuples of different arity are never compatible.
pub proof fn lemma_arity_mismatch(p: Seq<Value>, t: Seq<Value>)
    requires
        p.len() != t.len(),
    ensures
        !tuple_matches(p, t),
{
}

/// Compatibility does not depend on which side is called the pattern.
pub proof fn lemma_element_matches_symmetric(p: Value, c: Value)
    ensures
        element_matches(p, c) == element_matches(c, p),
    decreases p, 0nat,
{
    if let Value::Tup(ps) = p {
        if let Value::Tup(cs) = c {
            lemma_matches_symmetric(ps, cs);
        }
    }
}

/// Compatibility does not depend on which side is called the pattern.
pub proof fn lemma_matches_symmetric(p: Seq<Value>, c: Seq<Value>)
    ensures
        tuple_matches(p, c) == tuple_matches(c, p),
    decreases p, 1nat,
{
    if p.len() == c.len() {
        assert forall|i: int| 0 <= i < p.len() implies element_matches(#[trigger] p[i], c[i])
            == element_matches(#[trigger] c[i], p[i]) by {
            lemma_element_matches_symmetric(p[i], c[i]);
        }
    }
}

/// Ten to the power of `n`.
pub open spec fn pow10(n: nat) -> nat
    decreases n,
{
    if n == 0 {
        1
    } else {
        10 * pow10((n - 1) as nat)
    }
}

/// Whether `(-1)^negative * coefficient / 10^scale` is the same number
/// for both sets of fields.
pub open spec fn same_number(a: (bool, nat, nat), b: (bool, nat, nat)) -> bool {
    let x = if a.0 {
        -(a.1 as int)
    } else {
        a.1 as int
    };
    let y = if b.0 {
        -(b.1 as int)
    } else {
        b.1 as int
    };
    x * pow10(b.2) == y * pow10(a.2)
}

/// Whether fields are in lowest terms: the coefficient of a number with
/// a fraction does not end in zero, and zero has neither sign nor scale.
pub open spec fn in_lowest_terms(d: (bool, nat, nat)) -> bool {
    &&& d.1 == 0 ==> !d.0 && d.2 == 0
    &&& d.2 > 0 ==> d.1 % 10 != 0
}

/// A power of ten is positive.
pub proof fn lemma_pow10_positive(n: nat)
    ensures
        pow10(n) > 0,
    decreases n,
{
    if n > 0 {
        lemma_pow10_positive((n - 1) as nat);
    }
}

/// Reducing to lowest terms keeps the number, and reaches lowest terms.
pub proof fn lemma_lowest_terms(negative: bool, coefficient: nat, scale: nat)
    ensures
        in_lowest_terms(lowest_terms(negative, coefficient, scale)),
        same_number((negative, coefficient, scale), lowest_terms(negative, coefficient, scale)),
    decreases scale,
{
    let big = if negative {
        -(coefficient as int)
    } else {
        coefficient as int
    };
    let r = lowest_terms(negative, coefficient, scale);
    let y = if r.0 {
        -(r.1 as int)
    } else {
        r.1 as int
    };
    let p = pow10(r.2) as int;
    let whole = pow10(scale) as int;
    if coefficient == 0 {
        assert(big * p == y * whole) by (nonlinear_arith)
            requires
                big == 0,
                y == 0,
        ;
    } else if scale > 0 && coefficient % 10 == 0 {
        let c = coefficient / 10;
        let s = (scale - 1) as nat;
        lemma_lowest_terms(negative, c, s);
        let x = if negative {
            -(c as int)
        } else {
            c as int
        };
        let q = pow10(s) as int;
        assert(coefficient == 10 * c);
        assert(whole == 10 * q);
        assert(x * p == y * q);
        assert(big * p == y * whole) by (nonlinear_arith)
            requires
                x * p == y * q,
                big == 10 * x,
                whole == 10 * q,
        ;
    }
}

/// In lowest terms, the same number has the same fields: equality of
/// decimals is equality of their values.
pub proof fn lemma_lowest_terms_unique(a: (bool, nat, nat), b: (bool, nat, nat))
    requires
        in_lowest_terms(a),
        in_lowest_terms(b),
        same_number(a, b),
    ensures
        a == b,
{
    lemma_pow10_positive(a.2);
    lemma_pow10_positive(b.2);
    let x = if a.0 {
        -(a.1 as int)
    } else {
        a.1 as int
    };
    let y = if b.0 {
        -(b.1 as int)
    } else {
        b.1 as int
    };
    let p = pow10(b.2) as int;
    let q = pow10(a.2) as int;
    if a.1 == 0 || b.1 == 0 {
        assert(x == 0 && y == 0) by (nonlinear_arith)
            requires
                x * p == y * q,
                p > 0,
                q > 0,
                x == 0 || y == 0,
        ;
    } else {
        if a.2 < b.2 {
            assert(y % 10 != 0) by {
                assert(b.1 % 10 != 0);
                if b.0 {
                    assert((-(b.1 as int)) % 10 != 0) by (nonlinear_arith)
                        requires
                            b.1 % 10 != 0,
                    ;
                }
            }
            lemma_same_scale(x, a.2, y, b.2);
        } else if b.2 < a.2 {
            assert(x % 10 != 0) by {
                assert(a.1 % 10 != 0);
                if a.0 {
                    assert((-(a.1 as int)) % 10 != 0) by (nonlinear_arith)
                        requires
                            a.1 % 10 != 0,
                    ;
                }
            }
            lemma_same_scale(y, b.2, x, a.2);
        }
        assert(a.2 == b.2);
        assert(x == y) by (nonlinear_arith)
            requires
                x * p == y * p,
                p > 0,
        ;
    }
}

/// Of two equal numbers, the one with the longer fraction ends in zero:
/// where it does not, the fractions have the same length.
proof fn lemma_same_scale(x: int, s: nat, y: int, t: nat)
    requires
        s <= t,
        x * pow10(t) == y * pow10(s),
        y % 10 != 0,
    ensures
        s == t,
    decreases s,
{
    lemma_pow10_positive(s);
    lemma_pow10_positive(t);
    if s < t {
        let pt = pow10(t) as int;
        let ps = pow10(s) as int;
        let p = pow10((t - 1) as nat) as int;
        assert(pt == 10 * p);
        if s == 0 {
            let k = x * p;
            assert(y == 10 * k) by (nonlinear_arith)
                requires
                    x * pt == y * ps,
                    pt == 10 * p,
                    ps == 1,
                    k == x * p,
            ;
        } else {
            let q = pow10((s - 1) as nat) as int;
            assert(ps == 10 * q);
            assert(x * p == y * q) by (nonlinear_arith)
                requires
                    x * pt == y * ps,
                    pt == 10 * p,
                    ps == 10 * q,
            ;
            lemma_same_scale(x, (s - 1) as nat, y, (t - 1) as nat);
        }
    }
}

} // verus!
