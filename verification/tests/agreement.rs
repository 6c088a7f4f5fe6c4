//! Where this library and `rustupolis` give the same answers, and where
//! they part.

use rustupolis::space::Match;
use rustupolis::store::SimpleStore;
use sshtup::space::{Async, Space};
use sshtup::store::Store;
use sshtup::tuple::{Decimal, Tuple, E};

fn other_element(e: &E) -> rustupolis::tuple::E {
    match e {
        E::Any => rustupolis::tuple::E::Any,
        E::I(i) => rustupolis::tuple::E::I(*i),
        E::D(d) => {
            let magnitude = d.coefficient() as f64 / 10f64.powi(d.scale() as i32);
            rustupolis::tuple::E::D(if d.negative() { -magnitude } else { magnitude })
        }
        E::S(s) => rustupolis::tuple::E::S(s.clone()),
        E::T(t) => rustupolis::tuple::E::T(other_tuple(t)),
    }
}

fn other_tuple(t: &Tuple) -> rustupolis::tuple::Tuple {
    let mut elements = vec![];
    for i in 0..t.len() {
        elements.push(other_element(t.get(i)));
    }
    rustupolis::tuple::Tuple::from_vec(elements)
}

/// Whether two tuples have the same shape, all the way down, and nowhere
/// a wildcard on both sides.
fn comparable(a: &Tuple, b: &Tuple) -> bool {
    if a.len() != b.len() {
        return false;
    }
    for i in 0..a.len() {
        match (a.get(i), b.get(i)) {
            (E::Any, E::Any) => return false,
            (E::T(x), E::T(y)) => {
                if !comparable(x, y) {
                    return false;
                }
            }
            _ => {}
        }
    }
    true
}

fn samples() -> Vec<Tuple> {
    let t = |elems: Vec<E>| Tuple::new(elems);
    vec![
        t(vec![E::I(1)]),
        t(vec![E::I(2)]),
        t(vec![E::Any]),
        t(vec![E::str("a")]),
        t(vec![E::D(Decimal::new(false, 15, 1))]),
        t(vec![E::D(Decimal::new(false, 25, 1))]),
        t(vec![E::str("a"), E::I(1)]),
        t(vec![E::str("a"), E::I(2)]),
        t(vec![E::str("b"), E::I(1)]),
        t(vec![E::str("a"), E::Any]),
        t(vec![E::Any, E::I(1)]),
        t(vec![E::I(1), E::str("a")]),
        t(vec![E::str("a"), E::T(t(vec![E::I(1), E::I(2)]))]),
        t(vec![E::str("a"), E::T(t(vec![E::I(1), E::Any]))]),
        t(vec![E::str("a"), E::T(t(vec![E::Any, E::I(2)]))]),
        t(vec![E::str("a"), E::T(t(vec![E::I(1), E::I(3)]))]),
        t(vec![E::Any, E::T(t(vec![E::I(1), E::I(2)]))]),
        t(vec![E::str("a"), E::I(1), E::D(Decimal::new(true, 5, 0))]),
        t(vec![E::str("a"), E::Any, E::D(Decimal::new(true, 5, 0))]),
        t(vec![E::Any, E::I(1), E::D(Decimal::new(true, 6, 0))]),
    ]
}

#[test]
fn matching_agrees_on_tuples_of_one_shape() {
    let all = samples();
    let mut compared = 0;
    let mut matched = 0;
    for p in &all {
        for c in &all {
            if comparable(p, c) {
                let ours = p.matches(c);
                assert_eq!(ours, other_tuple(p).matches(&other_tuple(c)), "{:?} {:?}", p, c);
                compared += 1;
                if ours {
                    matched += 1;
                }
            }
        }
    }
    assert!(compared > 50);
    assert!(matched > 20);
    assert!(matched < compared);
}

#[test]
fn matching_parts_on_arity_and_on_two_wildcards() {
    let t = |elems: Vec<E>| Tuple::new(elems);
    let short = t(vec![E::I(1), E::I(2)]);
    let long = t(vec![E::I(1), E::I(2), E::I(3)]);
    assert!(!short.matches(&long));
    assert!(other_tuple(&short).matches(&other_tuple(&long)));
    let wild = t(vec![E::Any]);
    assert!(wild.matches(&wild));
    assert!(!other_tuple(&wild).matches(&other_tuple(&wild)));
}

#[test]
fn a_space_agrees_where_one_tuple_matches() {
    let t = |elems: Vec<E>| Tuple::new(elems);
    let resident = vec![
        t(vec![E::str("a"), E::I(1)]),
        t(vec![E::str("b"), E::I(2)]),
        t(vec![E::str("d"), E::I(7)]),
        t(vec![E::str("c"), E::T(t(vec![E::I(1), E::I(2)]))]),
    ];
    let queries = vec![
        (false, t(vec![E::str("a"), E::Any])),
        (false, t(vec![E::Any, E::I(2)])),
        (false, t(vec![E::str("d"), E::I(7)])),
        (true, t(vec![E::Any, E::I(1)])),
        (true, t(vec![E::str("b"), E::I(2)])),
        (true, t(vec![E::str("c"), E::T(t(vec![E::Any, E::Any]))])),
        (true, t(vec![E::Any, E::Any])),
    ];
    let mut ours = Space::new(Store::new());
    let mut theirs = rustupolis::space::Space::new(SimpleStore::new());
    for r in &resident {
        ours.out(r.clone());
        drop(theirs.tuple_out(other_tuple(r)));
    }
    for (destructive, pattern) in &queries {
        let handle = if *destructive {
            ours.in_(pattern.clone())
        } else {
            ours.rd(pattern.clone())
        };
        let found = match handle.poll(&mut ours) {
            Async::Ready(Ok(Some(found))) => found,
            _ => panic!("no tuple for {:?}", pattern),
        };
        let answer = if *destructive {
            theirs.tuple_in(other_tuple(pattern))
        } else {
            theirs.tuple_rd(other_tuple(pattern))
        };
        match answer {
            Match::Done(Ok(Some(other))) => assert_eq!(other, other_tuple(&found), "{:?}", pattern),
            _ => panic!("no tuple for {:?}", pattern),
        }
    }
    assert_eq!(ours.len(), 0);
}

#[test]
fn a_space_parts_on_order_and_on_waiting() {
    let t = |elems: Vec<E>| Tuple::new(elems);
    let mut ours = Space::new(Store::new());
    let mut theirs = rustupolis::space::Space::new(SimpleStore::new());
    for n in [2, 1] {
        ours.out(t(vec![E::str("k"), E::I(n)]));
        drop(theirs.tuple_out(other_tuple(&t(vec![E::str("k"), E::I(n)]))));
    }
    let pattern = t(vec![E::str("k"), E::Any]);
    match ours.in_(pattern.clone()).poll(&mut ours) {
        Async::Ready(Ok(Some(first))) => assert_eq!(first, t(vec![E::str("k"), E::I(2)])),
        _ => panic!("no tuple"),
    }
    match theirs.tuple_in(other_tuple(&pattern)) {
        Match::Done(Ok(Some(first))) => {
            assert_eq!(first, other_tuple(&t(vec![E::str("k"), E::I(1)])))
        }
        _ => panic!("no tuple"),
    }
    let absent = t(vec![E::str("none"), E::Any]);
    assert!(matches!(
        ours.in_(absent.clone()).poll(&mut ours),
        Async::NotReady(_)
    ));
    match theirs.tuple_in(other_tuple(&absent)) {
        Match::Done(Ok(Some(empty))) => assert!(empty.is_empty()),
        _ => panic!("no answer"),
    }
}
