use sshtup::ast::{Keyword, Statement};
use sshtup::tuple::{Decimal, Tuple, E};

fn t(elems: Vec<E>) -> Tuple {
    Tuple::new(elems)
}

#[test]
fn it_works() {
    assert_eq!(2 + 2, 4);
}

#[test]
fn matching_is_reflexive() {
    let samples = vec![
        t(vec![]),
        t(vec![E::I(1)]),
        t(vec![E::Any]),
        t(vec![E::str("a"), E::I(-3), E::D(Decimal::new(false, 15, 1))]),
        t(vec![E::T(t(vec![E::Any, E::str("x")])), E::T(t(vec![]))]),
    ];
    for s in &samples {
        assert!(s.matches(s), "{:?}", s);
    }
}

#[test]
fn wildcards_absorb() {
    let whole = t(vec![E::str("a"), E::I(1), E::T(t(vec![E::I(2), E::str("b")]))]);
    let patterns = vec![
        t(vec![E::Any, E::I(1), E::T(t(vec![E::I(2), E::str("b")]))]),
        t(vec![E::str("a"), E::Any, E::Any]),
        t(vec![E::Any, E::Any, E::Any]),
        t(vec![E::str("a"), E::I(1), E::T(t(vec![E::Any, E::str("b")]))]),
        t(vec![E::str("a"), E::I(1), E::T(t(vec![E::Any, E::Any]))]),
    ];
    for p in &patterns {
        assert!(p.matches(&whole), "{:?}", p);
        assert!(whole.matches(p), "{:?}", p);
    }
}

#[test]
fn arity_mismatch_never_matches() {
    assert!(!t(vec![]).matches(&t(vec![E::Any])));
    assert!(!t(vec![E::Any]).matches(&t(vec![])));
    assert!(!t(vec![E::I(1), E::I(2)]).matches(&t(vec![E::I(1), E::I(2), E::I(3)])));
    assert!(!t(vec![E::Any, E::Any]).matches(&t(vec![E::I(1)])));
    assert!(!t(vec![E::T(t(vec![E::Any]))]).matches(&t(vec![E::T(t(vec![E::I(1), E::I(2)]))])));
}

#[test]
fn elements_match_by_type_and_value() {
    assert!(E::I(1).matches(&E::I(1)));
    assert!(!E::I(1).matches(&E::I(2)));
    assert!(!E::I(1).matches(&E::str("1")));
    assert!(!E::I(1).matches(&E::D(Decimal::new(false, 1, 0))));
    assert!(E::D(Decimal::new(false, 250, 2)).matches(&E::D(Decimal::new(false, 25, 1))));
    assert!(!E::D(Decimal::new(false, 25, 1)).matches(&E::D(Decimal::new(true, 25, 1))));
    assert!(!E::D(Decimal::new(false, 25, 1)).matches(&E::D(Decimal::new(false, 25, 2))));
    assert!(E::str("a").matches(&E::str("a")));
    assert!(!E::str("a").matches(&E::str("A")));
    assert!(!E::T(t(vec![])).matches(&E::I(0)));
    assert!(!E::str("x").matches(&E::T(t(vec![E::str("x")]))));
    assert!(E::Any.matches(&E::Any));
    assert!(E::Any.matches(&E::T(t(vec![]))));
    assert!(E::T(t(vec![])).matches(&E::Any));
}

#[test]
fn decimals_reduce_to_lowest_terms() {
    let d = Decimal::new(false, 31415, 4);
    assert_eq!((d.negative(), d.coefficient(), d.scale()), (false, 31415, 4));
    let d = Decimal::new(true, 1500, 3);
    assert_eq!((d.negative(), d.coefficient(), d.scale()), (true, 15, 1));
    let d = Decimal::new(true, 1000, 2);
    assert_eq!((d.negative(), d.coefficient(), d.scale()), (true, 10, 0));
    let d = Decimal::new(true, 0, 7);
    assert_eq!((d.negative(), d.coefficient(), d.scale()), (false, 0, 0));
    let d = Decimal::new(false, 1000, 0);
    assert_eq!((d.negative(), d.coefficient(), d.scale()), (false, 1000, 0));
    assert_eq!(Decimal::new(false, 50, 2), Decimal::new(false, 5, 1));
}

#[test]
fn tuples_know_their_elements() {
    let x = t(vec![E::I(1), E::str("b")]);
    assert_eq!(x.len(), 2);
    assert!(!x.is_empty());
    assert_eq!(x.get(0), &E::I(1));
    assert_eq!(x.get(1), &E::str("b"));
    assert!(t(vec![]).is_empty());
    let y = x.clone();
    assert_eq!(x, y);
    assert_eq!(E::T(x).clone(), E::T(y));
}

#[test]
fn tuples_render_as_text() {
    assert_eq!(t(vec![]).render(), "[]");
    assert_eq!(t(vec![E::str("a"), E::I(1)]).render(), "[a, 1]");
    assert_eq!(
        t(vec![
            E::Any,
            E::I(-12),
            E::I(0),
            E::I(i32::MIN),
            E::I(i32::MAX),
            E::str("space command"),
            E::str(""),
            E::str("_"),
            E::str("9lives"),
            E::T(t(vec![E::T(t(vec![])), E::str("x_1")])),
        ])
        .render(),
        "[_, -12, 0, -2147483648, 2147483647, \"space command\", \"\", \"_\", \"9lives\", [[], x_1]]"
    );
    assert_eq!(E::D(Decimal::new(false, 31415, 4)).render(), "3.1415");
    assert_eq!(E::D(Decimal::new(false, 15, 1)).render(), "1.5");
    assert_eq!(E::D(Decimal::new(true, 5, 3)).render(), "-0.005");
    assert_eq!(E::D(Decimal::new(false, 5, 1)).render(), "0.5");
    assert_eq!(E::D(Decimal::new(false, 2, 0)).render(), "2.0");
    assert_eq!(E::D(Decimal::new(false, 0, 0)).render(), "0.0");
    assert_eq!(E::D(Decimal::new(false, u64::MAX, 0)).render(), "18446744073709551615.0");
    assert_eq!(E::D(Decimal::new(false, 12345, 5)).render(), "0.12345");
    assert_eq!(E::D(Decimal::new(false, 12345, 2)).render(), "123.45");
    assert_eq!(E::Any.render(), "_");
}

#[test]
fn rendered_tuples_parse_back() {
    let samples = vec![
        t(vec![]),
        t(vec![E::I(1), E::I(2), E::I(3)]),
        t(vec![E::Any, E::str("foo"), E::D(Decimal::new(false, 31415, 4))]),
        t(vec![E::str("foo"), E::str("bar"), E::str("baz")]),
        t(vec![
            E::str("space command"),
            E::I(-2),
            E::T(t(vec![E::D(Decimal::new(true, 15, 1)), E::D(Decimal::new(false, 2, 0))])),
            E::str("12.34.45"),
            E::str("_"),
            E::str(""),
            E::D(Decimal::new(false, 4000000000, 0)),
            E::D(Decimal::new(false, 7, 9)),
        ]),
    ];
    for s in &samples {
        let line = format!("out {}", s.render());
        let st = sshtup::grammar::statement(&line).unwrap();
        assert_eq!(st.tuple(), s, "{}", line);
        assert_eq!(st.keyword(), sshtup::ast::Keyword::Out);
    }
}

#[test]
fn statements_render_and_parse_back() {
    let body = || {
        t(vec![
            E::Any,
            E::I(-5),
            E::str("word"),
            E::str("two words"),
            E::D(Decimal::new(true, 25, 1)),
            E::T(t(vec![E::T(t(vec![])), E::D(Decimal::new(false, 1, 3))])),
        ])
    };
    let text = "[_, -5, word, \"two words\", -2.5, [[], 0.001]]";
    for (keyword, word) in [(Keyword::In, "in"), (Keyword::Rd, "rd"), (Keyword::Out, "out")] {
        let st = Statement::new(keyword, body());
        assert!(st.tuple().is_writable());
        assert_eq!(st.render(), format!("{} {}", word, text));
        assert_eq!(sshtup::grammar::statement(&st.render()), Ok(st));
    }
}

#[test]
fn a_string_with_a_quote_does_not_read_back() {
    let quoted = t(vec![E::str("say \"hi\"")]);
    assert!(!quoted.is_writable());
    assert!(!E::str("\"").is_writable());
    assert!(!t(vec![E::I(1), E::T(t(vec![E::str("a\"b")]))]).is_writable());
    assert!(E::str("plain").is_writable());
    assert!(E::Any.is_writable());
    assert!(E::D(Decimal::new(false, 5, 1)).is_writable());
    assert!(t(vec![]).is_writable());
    assert_eq!(quoted.render(), "[\"say \"hi\"\"]");
    assert!(sshtup::grammar::statement(&format!("out {}", quoted.render())).is_err());
}
