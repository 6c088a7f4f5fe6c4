use sshtup::ast;
use sshtup::grammar;
use sshtup::tuple::{Decimal, Tuple, E};

fn d(negative: bool, coefficient: u64, scale: u16) -> E {
    E::D(Decimal::new(negative, coefficient, scale))
}

fn as_f64(e: &E) -> f64 {
    match e {
        E::D(x) => {
            let magnitude = x.coefficient() as f64 / 10f64.powi(x.scale() as i32);
            if x.negative() {
                -magnitude
            } else {
                magnitude
            }
        }
        other => panic!("not a decimal: {:?}", other),
    }
}

#[test]
fn test_valid() {
    let t = grammar::statement("in []").unwrap();
    assert_eq!(t, ast::Statement::In(Tuple::new(vec![])));
    let t = grammar::statement("in [1, 2, 3]").unwrap();
    assert_eq!(
        t,
        ast::Statement::In(Tuple::new(vec![E::I(1), E::I(2), E::I(3)]))
    );
    let t = grammar::statement("in [1,2,3]").unwrap();
    assert_eq!(
        t,
        ast::Statement::In(Tuple::new(vec![E::I(1), E::I(2), E::I(3)]))
    );
    let t = grammar::statement("in [_,foo,3.1415]").unwrap();
    assert_eq!(
        t,
        ast::Statement::In(Tuple::new(vec![E::Any, E::str("foo"), d(false, 31415, 4)]))
    );
    assert_eq!(as_f64(t.tuple().get(2)), 3.1415);
    let t = grammar::statement("in [command,2,[_,_]]").unwrap();
    assert_eq!(
        t,
        ast::Statement::In(Tuple::new(vec![
            E::str("command"),
            E::I(2),
            E::T(Tuple::new(vec![E::Any, E::Any]))
        ]))
    );
    let t = grammar::statement(r#"in ["space command",2,[1.5,2.5]]"#).unwrap();
    assert_eq!(
        t,
        ast::Statement::In(Tuple::new(vec![
            E::str("space command"),
            E::I(2),
            E::T(Tuple::new(vec![d(false, 15, 1), d(false, 25, 1)]))
        ]))
    );
    match t.tuple().get(2) {
        E::T(inner) => {
            assert_eq!(as_f64(inner.get(0)), 1.5);
            assert_eq!(as_f64(inner.get(1)), 2.5);
        }
        other => panic!("not a tuple: {:?}", other),
    }
    let t = grammar::statement(r#"rd [foo,bar,baz]"#).unwrap();
    assert_eq!(
        t,
        ast::Statement::Rd(Tuple::new(vec![
            E::str("foo"),
            E::str("bar"),
            E::str("baz")
        ]))
    );
    let t = grammar::statement(r#"out [foo,bar,baz]"#).unwrap();
    assert_eq!(
        t,
        ast::Statement::Out(Tuple::new(vec![
            E::str("foo"),
            E::str("bar"),
            E::str("baz")
        ]))
    );
    let t = grammar::statement(r#"in ["12.34.45"]"#).unwrap();
    assert_eq!(t, ast::Statement::In(Tuple::new(vec![E::str("12.34.45")])));
}

#[test]
fn test_invalid() {
    for ex in &[
        "in [",
        "in ][",
        "nope [1,2,3]",
        "out [,,]",
        "rd [12.34.45]",
        "",
        "in",
        "rd",
        "out",
    ] {
        let result = grammar::statement(ex);
        assert!(!result.is_ok());
    }
}

#[test]
fn parses_each_kind_of_element() {
    assert_eq!(grammar::parse_element("_"), Ok(E::Any));
    assert_eq!(grammar::parse_element("42"), Ok(E::I(42)));
    assert_eq!(grammar::parse_element("-7"), Ok(E::I(-7)));
    assert_eq!(grammar::parse_element("007"), Ok(E::I(7)));
    assert_eq!(grammar::parse_element("-0"), Ok(E::I(0)));
    assert_eq!(grammar::parse_element("foo"), Ok(E::str("foo")));
    assert_eq!(grammar::parse_element("_foo9"), Ok(E::str("_foo9")));
    assert_eq!(grammar::parse_element("\"\""), Ok(E::str("")));
    assert_eq!(grammar::parse_element("\"_\""), Ok(E::str("_")));
    assert_eq!(grammar::parse_element("\"a, [b]\""), Ok(E::str("a, [b]")));
    assert_eq!(grammar::parse_element("\"héllo wörld\""), Ok(E::str("héllo wörld")));
    assert_eq!(grammar::parse_element("[]"), Ok(E::T(Tuple::new(vec![]))));
    assert_eq!(
        grammar::parse_element(" [ 1 , [ two , _ ] ] "),
        Ok(E::T(Tuple::new(vec![
            E::I(1),
            E::T(Tuple::new(vec![E::str("two"), E::Any]))
        ])))
    );
}

#[test]
fn integers_keep_to_32_bits() {
    assert_eq!(grammar::parse_element("2147483647"), Ok(E::I(i32::MAX)));
    assert_eq!(grammar::parse_element("-2147483648"), Ok(E::I(i32::MIN)));
    assert_eq!(
        grammar::parse_element("2147483648"),
        Ok(d(false, 2147483648, 0))
    );
    assert_eq!(
        grammar::parse_element("-2147483649"),
        Ok(d(true, 2147483649, 0))
    );
    assert_eq!(
        grammar::parse_element("18446744073709551615"),
        Ok(d(false, u64::MAX, 0))
    );
    assert!(grammar::parse_element("18446744073709551616").is_err());
}

#[test]
fn decimals_are_held_in_lowest_terms() {
    assert_eq!(grammar::parse_element("2.50"), Ok(d(false, 25, 1)));
    assert_eq!(grammar::parse_element("2.0"), Ok(d(false, 2, 0)));
    assert_eq!(grammar::parse_element("10.0"), Ok(d(false, 10, 0)));
    assert_eq!(grammar::parse_element("0.05"), Ok(d(false, 5, 2)));
    assert_eq!(grammar::parse_element("-0.125"), Ok(d(true, 125, 3)));
    assert_eq!(grammar::parse_element("-0.0"), Ok(d(false, 0, 0)));
    assert_eq!(grammar::parse_element("0.000"), Ok(d(false, 0, 0)));
    assert_eq!(
        grammar::parse_element("0.50000000000000000000000000000000"),
        Ok(d(false, 5, 1))
    );
    assert_eq!(grammar::parse_element("2.50"), grammar::parse_element("2.5"));
    let e = grammar::parse_element("2.50").unwrap();
    match e {
        E::D(x) => {
            assert!(!x.negative());
            assert_eq!(x.coefficient(), 25);
            assert_eq!(x.scale(), 1);
        }
        other => panic!("not a decimal: {:?}", other),
    }
    assert!(grammar::parse_element("1844674407370955161.6").is_err());
    assert_eq!(
        grammar::parse_element("1844674407370955161.5"),
        Ok(d(false, u64::MAX, 1))
    );
}

#[test]
fn malformed_elements_are_rejected() {
    for ex in &[
        "", " ", "1.", ".5", "1.2.3", "-", "--1", "+1", "1e5", "foo-bar", "9lives", "\"open",
        "[1,2", "[1,]", "[,1]", "[1 2]", "1 2", "a b", "_ _", "]", ",", "[1]]", "é",
    ] {
        assert_eq!(grammar::parse_element(ex), Err(sshtup::error::ParseError), "{:?}", ex);
    }
}

#[test]
fn statements_allow_blanks() {
    let expected = ast::Statement::Out(Tuple::new(vec![E::I(1), E::str("x")]));
    for ex in &[
        "out[1,x]",
        "out [1,x]",
        "  out\t[ 1 ,\tx ]  ",
        "out [1,x]\t",
        "\nout [1,x]",
        "out\n[1,\r\nx]\r\n",
    ] {
        assert_eq!(grammar::statement(ex), Ok(expected_clone(&expected)), "{:?}", ex);
    }
}

fn expected_clone(s: &ast::Statement) -> ast::Statement {
    ast::Statement::new(s.keyword(), s.tuple().clone())
}

#[test]
fn statements_need_a_keyword_and_one_tuple() {
    for ex in &[
        "[1]", "in 1", "in [1] [2]", "in [1] x", "inn [1]", "IN [1]", "i n [1]", "out [1],",
        "rd", "rd [", "rd ]", "in\u{b}[1]", "o ut [1]", "out [1 0]",
    ] {
        assert!(grammar::statement(ex).is_err(), "{:?}", ex);
    }
}

#[test]
fn statement_parts_are_read_back() {
    let st = grammar::statement("rd [a, 1]").unwrap();
    assert_eq!(st.keyword(), ast::Keyword::Rd);
    assert_eq!(st.tuple(), &Tuple::new(vec![E::str("a"), E::I(1)]));
    assert_eq!(
        ast::Statement::new(ast::Keyword::In, Tuple::new(vec![])),
        ast::Statement::In(Tuple::new(vec![]))
    );
}
