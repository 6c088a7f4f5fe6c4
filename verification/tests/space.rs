use sshtup::space::{Async, QueryHandle, Space};
use sshtup::store::{Store, StoreError, WaiterKind};
use sshtup::tuple::{Tuple, E};

fn t(elems: Vec<E>) -> Tuple {
    Tuple::new(elems)
}

fn ready(h: QueryHandle, space: &mut Space) -> Tuple {
    match h.poll(space) {
        Async::Ready(Ok(Some(t))) => t,
        Async::Ready(other) => panic!("resolved otherwise: {:?}", other),
        Async::NotReady(_) => panic!("still pending"),
    }
}

fn pending(h: QueryHandle, space: &mut Space) -> QueryHandle {
    match h.poll(space) {
        Async::Ready(r) => panic!("resolved: {:?}", r),
        Async::NotReady(h) => h,
    }
}

#[test]
fn resident_tuples_leave_first_in_first_out() {
    let mut space = Space::new(Store::new());
    let a = t(vec![E::str("k"), E::I(1)]);
    let b = t(vec![E::str("k"), E::I(2)]);
    let p = || t(vec![E::str("k"), E::Any]);
    assert!(matches!(space.out(a.clone()).poll(), Async::Ready(Ok(()))));
    assert!(matches!(space.out(b.clone()).poll(), Async::Ready(Ok(()))));
    assert_eq!(space.len(), 2);
    let h = space.in_(p());
    assert_eq!(ready(h, &mut space), a);
    let h = space.in_(p());
    assert_eq!(ready(h, &mut space), b);
    assert_eq!(space.len(), 0);
}

#[test]
fn the_oldest_match_wins_among_others() {
    let mut space = Space::new(Store::new());
    space.out(t(vec![E::I(9)]));
    space.out(t(vec![E::str("k"), E::I(1)]));
    space.out(t(vec![E::str("z"), E::I(5)]));
    space.out(t(vec![E::str("k"), E::I(2)]));
    let h = space.rd(t(vec![E::str("k"), E::Any]));
    assert_eq!(ready(h, &mut space), t(vec![E::str("k"), E::I(1)]));
    let h = space.in_(t(vec![E::Any, E::Any]));
    assert_eq!(ready(h, &mut space), t(vec![E::str("k"), E::I(1)]));
    let h = space.in_(t(vec![E::Any, E::Any]));
    assert_eq!(ready(h, &mut space), t(vec![E::str("z"), E::I(5)]));
    assert_eq!(space.len(), 2);
}

#[test]
fn rd_keeps_and_in_removes() {
    let mut space = Space::new(Store::new());
    let x = t(vec![E::str("a"), E::I(1)]);
    let p = || t(vec![E::str("a"), E::Any]);
    space.out(x.clone());
    let h = space.rd(p());
    assert_eq!(ready(h, &mut space), x);
    assert_eq!(space.len(), 1);
    let h = space.rd(p());
    assert_eq!(ready(h, &mut space), x);
    let h = space.in_(p());
    assert_eq!(ready(h, &mut space), x);
    assert_eq!(space.len(), 0);
    let h = space.in_(p());
    let h = pending(h, &mut space);
    assert_eq!(space.waiting(), 1);
    h.cancel(&mut space);
    assert_eq!(space.waiting(), 0);
}

#[test]
fn a_blocked_in_resolves_on_arrival() {
    let mut space = Space::new(Store::new());
    let h = space.in_(t(vec![E::str("a"), E::Any]));
    assert!(matches!(h, QueryHandle::Pending(_)));
    let h = pending(h, &mut space);
    let h = pending(h, &mut space);
    assert_eq!(space.waiting(), 1);
    space.out(t(vec![E::str("b"), E::I(1)]));
    let h = pending(h, &mut space);
    assert_eq!(space.len(), 1);
    space.out(t(vec![E::str("a"), E::I(7)]));
    assert_eq!(space.len(), 1);
    assert_eq!(space.waiting(), 0);
    assert_eq!(ready(h, &mut space), t(vec![E::str("a"), E::I(7)]));
}

#[test]
fn one_tuple_resolves_one_waiter() {
    let mut space = Space::new(Store::new());
    let first = space.in_(t(vec![E::str("a"), E::Any]));
    let second = space.in_(t(vec![E::Any, E::I(1)]));
    let third = space.rd(t(vec![E::Any, E::Any]));
    assert_eq!(space.waiting(), 3);
    space.out(t(vec![E::str("a"), E::I(1)]));
    assert_eq!(space.waiting(), 2);
    assert_eq!(space.len(), 0);
    let second = pending(second, &mut space);
    let third = pending(third, &mut space);
    assert_eq!(ready(first, &mut space), t(vec![E::str("a"), E::I(1)]));
    space.out(t(vec![E::str("b"), E::I(1)]));
    assert_eq!(space.len(), 0);
    let third = pending(third, &mut space);
    assert_eq!(ready(second, &mut space), t(vec![E::str("b"), E::I(1)]));
    space.out(t(vec![E::str("c"), E::I(3)]));
    assert_eq!(space.len(), 1);
    assert_eq!(space.waiting(), 0);
    assert_eq!(ready(third, &mut space), t(vec![E::str("c"), E::I(3)]));
    let again = space.in_(t(vec![E::str("c"), E::Any]));
    assert_eq!(ready(again, &mut space), t(vec![E::str("c"), E::I(3)]));
}

#[test]
fn a_blocked_rd_leaves_the_tuple_resident() {
    let mut space = Space::new(Store::new());
    let p = || t(vec![E::Any]);
    let h = space.rd(p());
    let h = pending(h, &mut space);
    space.out(t(vec![E::I(5)]));
    assert_eq!(ready(h, &mut space), t(vec![E::I(5)]));
    assert_eq!(space.len(), 1);
    let h = space.in_(p());
    assert_eq!(ready(h, &mut space), t(vec![E::I(5)]));
    assert_eq!(space.len(), 0);
}

#[test]
fn the_store_takes_reads_and_delivers() {
    let mut store = Store::new();
    let p = t(vec![E::Any]);
    assert_eq!(store.try_take(&p), None);
    assert_eq!(store.try_read(&p), None);
    store.insert(t(vec![E::I(1)]));
    store.insert(t(vec![E::I(2)]));
    assert_eq!(store.len(), 2);
    assert_eq!(store.try_read(&p), Some(t(vec![E::I(1)])));
    assert_eq!(store.try_take(&t(vec![E::I(2)])), Some(t(vec![E::I(2)])));
    assert_eq!(store.try_take(&p), Some(t(vec![E::I(1)])));
    assert_eq!(store.try_take(&p), None);
    let w0 = store.register_waiter(t(vec![E::I(3)]), WaiterKind::Take).unwrap();
    let w1 = store.register_waiter(t(vec![E::Any]), WaiterKind::Read).unwrap();
    assert_eq!(w0.id(), 0);
    assert_eq!(w1.id(), 1);
    assert_eq!(store.waiting(), 2);
    assert_eq!(store.collect(&w0), None);
    store.insert(t(vec![E::I(4)]));
    assert_eq!(store.collect(&w0), None);
    assert_eq!(store.collect(&w1), Some(t(vec![E::I(4)])));
    assert_eq!(store.collect(&w1), None);
    assert_eq!(store.len(), 1);
    store.insert(t(vec![E::I(3)]));
    assert_eq!(store.len(), 1);
    store.deregister(w0);
    assert_eq!(store.waiting(), 0);
    let w2 = store.register_waiter(t(vec![E::I(3)]), WaiterKind::Take).unwrap();
    assert_eq!(w2.id(), 2);
    assert_eq!(store.collect(&w2), None);
    store.deregister(w2);
    store.insert(t(vec![E::I(3)]));
    assert_eq!(store.len(), 2);
    assert_eq!(StoreError::TicketsExhausted, StoreError::TicketsExhausted);
}

#[test]
fn a_store_out_of_tickets_fails_the_query() {
    let mut store = Store::with_first_ticket(u64::MAX - 1);
    let w = store.register_waiter(t(vec![E::I(1)]), WaiterKind::Take).unwrap();
    assert_eq!(w.id(), u64::MAX - 1);
    assert_eq!(
        store.register_waiter(t(vec![E::I(2)]), WaiterKind::Read),
        Err(StoreError::TicketsExhausted)
    );
    assert_eq!(store.waiting(), 1);
    let mut space = Space::new(store);
    let h = space.in_(t(vec![E::I(3)]));
    assert!(matches!(h, QueryHandle::Done(Err(StoreError::TicketsExhausted))));
    assert!(matches!(
        h.poll(&mut space),
        Async::Ready(Err(StoreError::TicketsExhausted))
    ));
    assert_eq!(space.waiting(), 1);
    space.out(t(vec![E::I(3)]));
    let h = space.rd(t(vec![E::I(3)]));
    assert_eq!(ready(h, &mut space), t(vec![E::I(3)]));
    space.out(t(vec![E::I(1)]));
    assert_eq!(space.waiting(), 0);
    assert_eq!(space.len(), 1);
}
