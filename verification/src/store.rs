//! The store: resident tuples, the queries that wait for one, and the
//! deliveries that have been made to waiting queries.
//!
//! A `Store` is single-threaded. Every operation is a function of the
//! store's mathematical state, a `StoreView`; the operations are stated
//! there, and the executable store is proved to follow them.

use crate::tuple::{tuple_matches, Tuple, Value};
use vstd::prelude::*;

verus! {

/// Whether a waiting query removes the tuple it is resolved with.
#[derive(Clone, Copy, Debug, PartialEq, Eq, Structural)]
pub enum WaiterKind {
    /// A destructive query: the tuple leaves the store.
    Take,
    /// A non-destructive query: the tuple stays resident.
    Read,
}

/// The ticket of a waiting query. Its number is unique within the store
/// that issued it.
#[derive(Debug, PartialEq, Eq)]
pub struct WaiterHandle {
    id: u64,
}

/// A query that waits for a compatible tuple.
#[derive(Debug)]
pub struct Waiter {
    id: u64,
    pattern: Tuple,
    kind: WaiterKind,
}

/// A tuple that a waiting query was resolved with, until that query
/// collects it.
#[derive(Debug)]
pub struct Delivery {
    id: u64,
    tuple: Tuple,
}

/// A store failed to complete an operation.
#[derive(Clone, Copy, Debug, PartialEq, Eq, Structural)]
pub enum StoreError {
    /// The store has issued every ticket it can and cannot register
    /// another waiting query.
    TicketsExhausted,
}

/// A store of tuples.
#[derive(Debug)]
pub struct Store {
    resident: Vec<Tuple>,
    waiters: Vec<Waiter>,
    deliveries: Vec<Delivery>,
    next_id: u64,
}

/// The mathematical value of a waiting query.
pub struct WaiterView {
    pub id: u64,
    pub pattern: Seq<Value>,
    pub kind: WaiterKind,
}

/// The mathematical value of a delivery.
pub struct DeliveryView {
    pub id: u64,
    pub tuple: Seq<Value>,
}

/// The mathematical state of a store.
pub struct StoreView {
    /// The resident tuples, oldest first.
    pub resident: Seq<Seq<Value>>,
    /// The waiting queries, oldest first.
    pub waiters: Seq<WaiterView>,
    /// The deliveries not yet collected, oldest first.
    pub deliveries: Seq<DeliveryView>,
    /// The number of the next ticket.
    pub next_id: u64,
}

/// The first position at or after `from` whose item satisfies the
/// predicate.
pub open spec fn first_index_from<T>(items: Seq<T>, pred: spec_fn(T) -> bool, from: int) -> Option<int>
    decreases items.len() - from,
{
    if from < 0 || from >= items.len() {
        None
    } else if pred(items[from]) {
        Some(from)
    } else {
        first_index_from(items, pred, from + 1)
    }
}

/// The first position whose item satisfies the predicate.
pub open spec fn first_index<T>(items: Seq<T>, pred: spec_fn(T) -> bool) -> Option<int> {
    first_index_from(items, pred, 0)
}

/// The tuples that are compatible with a pattern.
pub open spec fn compatible_with(pattern: Seq<Value>) -> spec_fn(Seq<Value>) -> bool {
    |t: Seq<Value>| tuple_matches(pattern, t)
}

/// The waiting queries whose pattern is compatible with a tuple.
pub open spec fn waits_for(tuple: Seq<Value>) -> spec_fn(WaiterView) -> bool {
    |w: WaiterView| tuple_matches(w.pattern, tuple)
}

/// The waiting queries that hold a ticket.
pub open spec fn holds_ticket(id: u64) -> spec_fn(WaiterView) -> bool {
    |w: WaiterView| w.id == id
}

/// The deliveries made to a ticket.
pub open spec fn delivered_to(id: u64) -> spec_fn(DeliveryView) -> bool {
    |d: DeliveryView| d.id == id
}

impl StoreView {
    /// The store that holds nothing.
    pub open spec fn empty() -> StoreView {
        StoreView { resident: Seq::empty(), waiters: Seq::empty(), deliveries: Seq::empty(), next_id: 0 }
    }

    /// The position of the oldest resident tuple compatible with the
    /// pattern.
    pub open spec fn first_match(self, pattern: Seq<Value>) -> Option<int> {
        first_index(self.resident, compatible_with(pattern))
    }

    /// The position of the oldest waiting query whose pattern is
    /// compatible with the tuple.
    pub open spec fn first_waiter(self, tuple: Seq<Value>) -> Option<int> {
        first_index(self.waiters, waits_for(tuple))
    }

    /// The position of the oldest delivery made to the ticket.
    pub open spec fn first_delivery(self, id: u64) -> Option<int> {
        first_index(self.deliveries, delivered_to(id))
    }

    /// The position of the waiting query that holds the ticket.
    pub open spec fn first_ticket(self, id: u64) -> Option<int> {
        first_index(self.waiters, holds_ticket(id))
    }

    /// The state after a tuple is inserted.
    ///
    /// The tuple is handed to the oldest waiting query whose pattern is
    /// compatible with it, and to no other. It becomes the youngest
    /// resident tuple unless a destructive query received it.
    pub open spec fn insert(self, tuple: Seq<Value>) -> StoreView {
        match self.first_waiter(tuple) {
            None => StoreView { resident: self.resident.push(tuple), ..self },
            Some(i) => StoreView {
                resident: if self.waiters[i].kind == WaiterKind::Take {
                    self.resident
                } else {
                    self.resident.push(tuple)
                },
                waiters: self.waiters.remove(i),
                deliveries: self.deliveries.push(DeliveryView { id: self.waiters[i].id, tuple }),
                next_id: self.next_id,
            },
        }
    }

    /// The tuple that a query for the pattern finds: the oldest
    /// compatible resident tuple.
    pub open spec fn read(self, pattern: Seq<Value>) -> Option<Seq<Value>> {
        match self.first_match(pattern) {
            None => None,
            Some(i) => Some(self.resident[i]),
        }
    }

    /// The state after a destructive query for the pattern: the tuple it
    /// finds is no longer resident.
    pub open spec fn take(self, pattern: Seq<Value>) -> StoreView {
        match self.first_match(pattern) {
            None => self,
            Some(i) => StoreView { resident: self.resident.remove(i), ..self },
        }
    }

    /// Whether another waiting query can be registered.
    pub open spec fn can_register(self) -> bool {
        self.next_id < u64::MAX
    }

    /// The state after a query is registered as waiting. Its ticket is
    /// the store's next number.
    pub open spec fn register(self, pattern: Seq<Value>, kind: WaiterKind) -> StoreView {
        StoreView {
            waiters: self.waiters.push(WaiterView { id: self.next_id, pattern, kind }),
            next_id: (self.next_id + 1) as u64,
            ..self
        }
    }

    /// The tuple that was delivered to the ticket, if one was.
    pub open spec fn delivered(self, id: u64) -> Option<Seq<Value>> {
        match self.first_delivery(id) {
            None => None,
            Some(i) => Some(self.deliveries[i].tuple),
        }
    }

    /// The state after the ticket's delivery is collected.
    pub open spec fn collect(self, id: u64) -> StoreView {
        match self.first_delivery(id) {
            None => self,
            Some(i) => StoreView { deliveries: self.deliveries.remove(i), ..self },
        }
    }

    /// The state after the ticket is withdrawn: the query no longer
    /// waits, and a delivery already made to it is dropped.
    pub open spec fn deregister(self, id: u64) -> StoreView {
        let waiters = match self.first_ticket(id) {
            None => self.waiters,
            Some(i) => self.waiters.remove(i),
        };
        StoreView { waiters, ..self.collect(id) }
    }

    /// Whether a ticket is held by a waiting query.
    pub open spec fn is_waiting(self, id: u64) -> bool {
        exists|i: int| 0 <= i < self.waiters.len() && #[trigger] self.waiters[i].id == id
    }

    /// The invariant of a store: every ticket in use was issued, and no
    /// ticket is in use twice.
    pub open spec fn wf(self) -> bool {
        &&& forall|i: int| 0 <= i < self.waiters.len() ==> (#[trigger] self.waiters[i]).id < self.next_id
        &&& forall|i: int|
            0 <= i < self.deliveries.len() ==> (#[trigger] self.deliveries[i]).id < self.next_id
        &&& forall|i: int, j: int|
            0 <= i < j < self.waiters.len() ==> (#[trigger] self.waiters[i]).id
                != (#[trigger] self.waiters[j]).id
        &&& forall|i: int, j: int|
            0 <= i < j < self.deliveries.len() ==> (#[trigger] self.deliveries[i]).id
                != (#[trigger] self.deliveries[j]).id
        &&& forall|i: int, j: int|
            0 <= i < self.waiters.len() && 0 <= j < self.deliveries.len() ==> (
            #[trigger] self.waiters[i]).id != (#[trigger] self.deliveries[j]).id
    }
}

impl View for Waiter {
    type V = WaiterView;

    closed spec fn view(&self) -> WaiterView {
        WaiterView { id: self.id, pattern: self.pattern@, kind: self.kind }
    }
}

impl View for Delivery {
    type V = DeliveryView;

    closed spec fn view(&self) -> DeliveryView {
        DeliveryView { id: self.id, tuple: self.tuple@ }
    }
}

impl View for WaiterHandle {
    type V = u64;

    closed spec fn view(&self) -> u64 {
        self.id
    }
}

impl View for Store {
    type V = StoreView;

    closed spec fn view(&self) -> StoreView {
        StoreView {
            resident: self.resident@.map_values(|t: Tuple| t@),
            waiters: self.waiters@.map_values(|w: Waiter| w@),
            deliveries: self.deliveries@.map_values(|d: Delivery| d@),
            next_id: self.next_id,
        }
    }
}

impl WaiterHandle {
    /// The ticket's number.
    pub fn id(&self) -> (id: u64)
        ensures
            id == self@,
    {
        self.id
    }
}

impl Store {
    /// A store that holds nothing.
    pub fn new() -> (s: Store)
        ensures
            s@ == StoreView::empty(),
            s@.wf(),
    {
        Store::with_first_ticket(0)
    }

    /// A store that holds nothing and numbers its tickets from `first`.
    pub fn with_first_ticket(first: u64) -> (s: Store)
        ensures
            s@ == (StoreView { next_id: first, ..StoreView::empty() }),
            s@.wf(),
    {
        let s = Store {
            resident: Vec::new(),
            waiters: Vec::new(),
            deliveries: Vec::new(),
            next_id: first,
        };
        assert(s@.resident =~= Seq::empty());
        assert(s@.waiters =~= Seq::empty());
        assert(s@.deliveries =~= Seq::empty());
        s
    }

    /// The number of resident tuples.
    pub fn len(&self) -> (n: usize)
        ensures
            n == self@.resident.len(),
    {
        self.resident.len()
    }

    /// The number of waiting queries.
    pub fn waiting(&self) -> (n: usize)
        ensures
            n == self@.waiters.len(),
    {
        self.waiters.len()
    }

    /// The position of the oldest resident tuple compatible with the
    /// pattern.
    fn find_match(&self, pattern: &Tuple) -> (r: Option<usize>)
        ensures
            match r {
                Some(i) => self@.first_match(pattern@) == Some(i as int) && i < self.resident.len(),
                None => self@.first_match(pattern@) is None,
            },
    {
        let mut i: usize = 0;
        while i < self.resident.len()
            invariant
                i <= self.resident.len(),
                self@.first_match(pattern@) == first_index_from(
                    self@.resident,
                    compatible_with(pattern@),
                    i as int,
                ),
            decreases self.resident.len() - i,
        {
            if pattern.matches(&self.resident[i]) {
                return Some(i);
            }
            i += 1;
        }
        None
    }

    /// The position of the oldest waiting query whose pattern is
    /// compatible with the tuple.
    fn find_waiter(&self, tuple: &Tuple) -> (r: Option<usize>)
        ensures
            match r {
                Some(i) => self@.first_waiter(tuple@) == Some(i as int) && i < self.waiters.len(),
                None => self@.first_waiter(tuple@) is None,
            },
    {
        let mut i: usize = 0;
        while i < self.waiters.len()
            invariant
                i <= self.waiters.len(),
                self@.first_waiter(tuple@) == first_index_from(
                    self@.waiters,
                    waits_for(tuple@),
                    i as int,
                ),
            decreases self.waiters.len() - i,
        {
            if self.waiters[i].pattern.matches(tuple) {
                return Some(i);
            }
            i += 1;
        }
        None
    }

    /// The position of the oldest delivery made to the ticket.
    fn find_delivery(&self, id: u64) -> (r: Option<usize>)
        ensures
            match r {
                Some(i) => self@.first_delivery(id) == Some(i as int) && i < self.deliveries.len(),
                None => self@.first_delivery(id) is None,
            },
    {
        let mut i: usize = 0;
        while i < self.deliveries.len()
            invariant
                i <= self.deliveries.len(),
                self@.first_delivery(id) == first_index_from(
                    self@.deliveries,
                    delivered_to(id),
                    i as int,
                ),
            decreases self.deliveries.len() - i,
        {
            if self.deliveries[i].id == id {
                return Some(i);
            }
            i += 1;
        }
        None
    }

    /// The position of the oldest waiting query that holds the ticket.
    fn find_ticket(&self, id: u64) -> (r: Option<usize>)
        ensures
            match r {
                Some(i) => self@.first_ticket(id) == Some(i as int) && i < self.waiters.len(),
                None => self@.first_ticket(id) is None,
            },
    {
        let mut i: usize = 0;
        while i < self.waiters.len()
            invariant
                i <= self.waiters.len(),
                self@.first_ticket(id) == first_index_from(
                    self@.waiters,
                    holds_ticket(id),
                    i as int,
                ),
            decreases self.waiters.len() - i,
        {
            if self.waiters[i].id == id {
                return Some(i);
            }
            i += 1;
        }
        None
    }

    /// Inserts a tuple.
    ///
    /// The oldest waiting query whose pattern is compatible with the
    /// tuple is resolved with it; no other query is. The tuple becomes
    /// resident unless a destructive query received it.
    pub fn insert(&mut self, tuple: Tuple)
        ensures
            final(self)@ == old(self)@.insert(tuple@),
            old(self)@.wf() ==> final(self)@.wf(),
    {
        proof {
            if old(self)@.wf() {
                lemma_operations_keep_wf(old(self)@, tuple@, WaiterKind::Take, 0);
            }
        }
        match self.find_waiter(&tuple) {
            None => {
                self.resident.push(tuple);
                assert(self@.resident =~= old(self)@.resident.push(tuple@));
            },
            Some(i) => {
                let waiter = self.waiters.remove(i);
                assert(self@.waiters =~= old(self)@.waiters.remove(i as int));
                match waiter.kind {
                    WaiterKind::Take => {},
                    WaiterKind::Read => {
                        self.resident.push(tuple.clone());
                        assert(self@.resident =~= old(self)@.resident.push(tuple@));
                    },
                }
                self.deliveries.push(Delivery { id: waiter.id, tuple });
                assert(self@.deliveries =~= old(self)@.deliveries.push(
                    DeliveryView { id: old(self)@.waiters[i as int].id, tuple: tuple@ },
                ));
            },
        }
    }

    /// Removes and returns the oldest resident tuple compatible with the
    /// pattern; `None`, and no change, if there is none.
    pub fn try_take(&mut self, pattern: &Tuple) -> (r: Option<Tuple>)
        ensures
            final(self)@ == old(self)@.take(pattern@),
            match r {
                Some(t) => old(self)@.read(pattern@) == Some(t@),
                None => old(self)@.read(pattern@) is None,
            },
            old(self)@.wf() ==> final(self)@.wf(),
    {
        proof {
            if old(self)@.wf() {
                lemma_operations_keep_wf(old(self)@, pattern@, WaiterKind::Take, 0);
            }
        }
        match self.find_match(pattern) {
            None => None,
            Some(i) => {
                let t = self.resident.remove(i);
                assert(self@.resident =~= old(self)@.resident.remove(i as int));
                Some(t)
            },
        }
    }

    /// Returns a copy of the oldest resident tuple compatible with the
    /// pattern; `None` if there is none.
    pub fn try_read(&self, pattern: &Tuple) -> (r: Option<Tuple>)
        ensures
            match r {
                Some(t) => self@.read(pattern@) == Some(t@),
                None => self@.read(pattern@) is None,
            },
    {
        match self.find_match(pattern) {
            None => None,
            Some(i) => Some(self.resident[i].clone()),
        }
    }

    /// Registers a query as waiting and returns its ticket; fails, with
    /// no change, once every ticket has been issued.
    pub fn register_waiter(&mut self, pattern: Tuple, kind: WaiterKind) -> (r: Result<
        WaiterHandle,
        StoreError,
    >)
        ensures
            match r {
                Ok(handle) => {
                    &&& old(self)@.can_register()
                    &&& handle@ == old(self)@.next_id
                    &&& final(self)@ == old(self)@.register(pattern@, kind)
                },
                Err(e) => {
                    &&& !old(self)@.can_register()
                    &&& e == StoreError::TicketsExhausted
                    &&& final(self)@ == old(self)@
                },
            },
            old(self)@.wf() ==> final(self)@.wf(),
    {
        proof {
            if old(self)@.wf() {
                lemma_operations_keep_wf(old(self)@, pattern@, kind, 0);
            }
        }
        if self.next_id == u64::MAX {
            return Err(StoreError::TicketsExhausted);
        }
        let id = self.next_id;
        self.next_id = id + 1;
        self.waiters.push(Waiter { id, pattern, kind });
        assert(self@.waiters =~= old(self)@.waiters.push(
            WaiterView { id, pattern: pattern@, kind },
        ));
        Ok(WaiterHandle { id })
    }

    /// Collects the tuple delivered to a ticket: `Some` and the delivery
    /// is gone, or `None`, and no change, while the query still waits.
    pub fn collect(&mut self, handle: &WaiterHandle) -> (r: Option<Tuple>)
        ensures
            final(self)@ == old(self)@.collect(handle@),
            match r {
                Some(t) => old(self)@.delivered(handle@) == Some(t@),
                None => old(self)@.delivered(handle@) is None,
            },
            old(self)@.wf() ==> final(self)@.wf(),
    {
        proof {
            if old(self)@.wf() {
                lemma_operations_keep_wf(old(self)@, Seq::empty(), WaiterKind::Take, handle@);
            }
        }
        match self.find_delivery(handle.id) {
            None => None,
            Some(i) => {
                let d = self.deliveries.remove(i);
                assert(self@.deliveries =~= old(self)@.deliveries.remove(i as int));
                Some(d.tuple)
            },
        }
    }

    /// Withdraws a ticket: its query no longer waits, and a delivery
    /// already made to it is dropped.
    pub fn deregister(&mut self, handle: WaiterHandle)
        ensures
            final(self)@ == old(self)@.deregister(handle@),
            old(self)@.wf() ==> final(self)@.wf(),
    {
        proof {
            if old(self)@.wf() {
                lemma_operations_keep_wf(old(self)@, Seq::empty(), WaiterKind::Take, handle@);
            }
        }
        match self.find_delivery(handle.id) {
            None => {},
            Some(i) => {
                self.deliveries.remove(i);
                assert(self@.deliveries =~= old(self)@.deliveries.remove(i as int));
            },
        }
        match self.find_ticket(handle.id) {
            None => {},
            Some(i) => {
                self.waiters.remove(i);
                assert(self@.waiters =~= old(self)@.waiters.remove(i as int));
            },
        }
    }
}

/// `first_index_from` finds the least position at or after `from` whose
/// item satisfies the predicate, and finds none only if there is none.
pub proof fn lemma_first_index_from<T>(items: Seq<T>, pred: spec_fn(T) -> bool, from: int)
    requires
        0 <= from,
    ensures
        match first_index_from(items, pred, from) {
            Some(i) => {
                &&& from <= i < items.len()
                &&& pred(items[i])
                &&& forall|j: int| from <= j < i ==> !pred(#[trigger] items[j])
            },
            None => forall|j: int| from <= j < items.len() ==> !pred(#[trigger] items[j]),
        },
    decreases items.len() - from,
{
    if from < items.len() && !pred(items[from]) {
        lemma_first_index_from(items, pred, from + 1);
    }
}

/// The position that satisfies the predicate and has none before it that
/// does is the one that `first_index` finds.
pub proof fn lemma_first_index_is<T>(items: Seq<T>, pred: spec_fn(T) -> bool, i: int)
    requires
        0 <= i < items.len(),
        pred(items[i]),
        forall|j: int| 0 <= j < i ==> !pred(#[trigger] items[j]),
    ensures
        first_index(items, pred) == Some(i),
{
    lemma_first_index_from(items, pred, 0);
}

/// A query finds the oldest compatible resident tuple: the one it finds
/// is compatible, and no tuple that has been resident longer is.
pub proof fn lemma_read_finds_oldest(s: StoreView, pattern: Seq<Value>)
    ensures
        match s.first_match(pattern) {
            Some(i) => {
                &&& 0 <= i < s.resident.len()
                &&& s.read(pattern) == Some(s.resident[i])
                &&& tuple_matches(pattern, s.resident[i])
                &&& forall|j: int| 0 <= j < i ==> !tuple_matches(pattern, #[trigger] s.resident[j])
            },
            None => {
                &&& s.read(pattern) is None
                &&& forall|j: int|
                    0 <= j < s.resident.len() ==> !tuple_matches(pattern, #[trigger] s.resident[j])
            },
        },
{
    lemma_first_index_from(s.resident, compatible_with(pattern), 0);
}

/// A query never finds a tuple of another arity: where every resident
/// tuple has another length than the pattern, the query finds nothing.
pub proof fn lemma_other_arity_is_never_found(s: StoreView, pattern: Seq<Value>)
    requires
        forall|i: int| 0 <= i < s.resident.len() ==> (#[trigger] s.resident[i]).len() != pattern.len(),
    ensures
        s.read(pattern) is None,
{
    lemma_read_finds_oldest(s, pattern);
}

/// A store that holds nothing is well formed.
pub proof fn lemma_empty_wf()
    ensures
        StoreView::empty().wf(),
{
}

/// Every operation keeps a store well formed.
pub proof fn lemma_operations_keep_wf(s: StoreView, tuple: Seq<Value>, kind: WaiterKind, id: u64)
    requires
        s.wf(),
    ensures
        s.insert(tuple).wf(),
        s.take(tuple).wf(),
        s.can_register() ==> s.register(tuple, kind).wf(),
        s.collect(id).wf(),
        s.deregister(id).wf(),
{
    lemma_first_index_from(s.waiters, waits_for(tuple), 0);
    lemma_first_index_from(s.waiters, holds_ticket(id), 0);
    lemma_first_index_from(s.deliveries, delivered_to(id), 0);
    lemma_first_index_from(s.resident, compatible_with(tuple), 0);
}

/// Resident tuples leave in the order they came: after `a` and then `b`
/// are inserted, both compatible with a pattern, a query for the pattern
/// finds `a`.
///
/// This holds where no tuple already resident is compatible with the
/// pattern, and where `a` is not handed to a waiting destructive query.
pub proof fn lemma_fifo_resident_order(s: StoreView, a: Seq<Value>, b: Seq<Value>, pattern: Seq<Value>)
    requires
        tuple_matches(pattern, a),
        tuple_matches(pattern, b),
        s.read(pattern) is None,
        match s.first_waiter(a) {
            Some(i) => s.waiters[i].kind == WaiterKind::Read,
            None => true,
        },
    ensures
        s.insert(a).insert(b).read(pattern) == Some(a),
{
    lemma_read_finds_oldest(s, pattern);
    let s1 = s.insert(a);
    let s2 = s1.insert(b);
    let n = s.resident.len() as int;
    assert(s1.resident == s.resident.push(a));
    assert(s2.resident == s1.resident || s2.resident == s1.resident.push(b));
    assert(s2.resident[n] == a);
    assert forall|j: int| 0 <= j < n implies !compatible_with(pattern)(#[trigger] s2.resident[j]) by {
        assert(s2.resident[j] == s.resident[j]);
    }
    lemma_first_index_is(s2.resident, compatible_with(pattern), n);
}

/// A non-destructive query leaves the store as it was: the tuple it
/// found is still resident, and a destructive query for the same pattern
/// finds the same tuple.
pub proof fn lemma_read_keeps_tuple(s: StoreView, pattern: Seq<Value>, t: Seq<Value>)
    requires
        s.read(pattern) == Some(t),
    ensures
        s.resident.contains(t),
        s.take(pattern).resident.to_multiset() == s.resident.to_multiset().remove(t),
{
    lemma_read_finds_oldest(s, pattern);
    let i = s.first_match(pattern)->0;
    assert(s.resident[i] == t);
    vstd::seq_lib::to_multiset_remove(s.resident, i);
}

/// A destructive query removes the tuple it found: the store has one
/// copy of it fewer, and none if it had one; every other resident tuple
/// stays, in its order.
pub proof fn lemma_take_removes_tuple(s: StoreView, pattern: Seq<Value>, t: Seq<Value>)
    requires
        s.read(pattern) == Some(t),
    ensures
        s.resident[s.first_match(pattern)->0] == t,
        s.take(pattern).resident == s.resident.remove(s.first_match(pattern)->0),
        s.take(pattern).resident.len() == s.resident.len() - 1,
        s.take(pattern).resident.to_multiset().count(t) == s.resident.to_multiset().count(t) - 1,
        s.resident.to_multiset().count(t) == 1 ==> !s.take(pattern).resident.contains(t),
        s.take(pattern).waiters == s.waiters,
        s.take(pattern).deliveries == s.deliveries,
{
    broadcast use vstd::multiset::group_multiset_axioms;

    lemma_read_finds_oldest(s, pattern);
    let i = s.first_match(pattern)->0;
    assert(s.resident[i] == t);
    vstd::seq_lib::to_multiset_remove(s.resident, i);
    s.resident.to_multiset_ensures();
    s.take(pattern).resident.to_multiset_ensures();
}

/// A tuple that resolves a waiting non-destructive query becomes
/// resident, and a destructive query for the same pattern then finds it,
/// where no tuple already resident is compatible with that pattern.
pub proof fn lemma_resolved_read_keeps_tuple(s: StoreView, t: Seq<Value>)
    requires
        s.first_waiter(t) is Some,
        s.waiters[s.first_waiter(t)->0].kind == WaiterKind::Read,
        s.read(s.waiters[s.first_waiter(t)->0].pattern) is None,
    ensures
        s.insert(t).resident == s.resident.push(t),
        s.insert(t).read(s.waiters[s.first_waiter(t)->0].pattern) == Some(t),
{
    let i = s.first_waiter(t)->0;
    let pattern = s.waiters[i].pattern;
    lemma_first_index_from(s.waiters, waits_for(t), 0);
    lemma_read_finds_oldest(s, pattern);
    let r = s.insert(t).resident;
    assert forall|j: int| 0 <= j < s.resident.len() implies !compatible_with(pattern)(
        #[trigger] r[j],
    ) by {
        assert(r[j] == s.resident[j]);
    }
    lemma_first_index_is(r, compatible_with(pattern), s.resident.len() as int);
}

/// An inserted tuple resolves at most one waiting query: the oldest one
/// whose pattern is compatible with it. A delivery is made to that
/// query's ticket and to no other ticket, every other query keeps
/// waiting, and a tuple that a destructive query received does not become
/// resident.
pub proof fn lemma_insert_resolves_one_waiter(s: StoreView, t: Seq<Value>)
    requires
        s.wf(),
    ensures
        match s.first_waiter(t) {
            Some(i) => {
                let w = s.waiters[i];
                &&& tuple_matches(w.pattern, t)
                &&& forall|j: int| 0 <= j < i ==> !tuple_matches((#[trigger] s.waiters[j]).pattern, t)
                &&& s.delivered(w.id) is None
                &&& s.insert(t).delivered(w.id) == Some(t)
                &&& !s.insert(t).is_waiting(w.id)
                &&& forall|id: u64|
                    id != w.id ==> #[trigger] s.insert(t).delivered(id) == s.delivered(id)
                &&& forall|id: u64|
                    id != w.id ==> #[trigger] s.insert(t).is_waiting(id) == s.is_waiting(id)
                &&& w.kind == WaiterKind::Take ==> s.insert(t).resident == s.resident
                &&& w.kind == WaiterKind::Read ==> s.insert(t).resident == s.resident.push(t)
            },
            None => {
                &&& forall|j: int|
                    0 <= j < s.waiters.len() ==> !tuple_matches((#[trigger] s.waiters[j]).pattern, t)
                &&& s.insert(t).waiters == s.waiters
                &&& s.insert(t).deliveries == s.deliveries
                &&& s.insert(t).resident == s.resident.push(t)
            },
        },
{
    lemma_first_index_from(s.waiters, waits_for(t), 0);
    if let Some(i) = s.first_waiter(t) {
        let w = s.waiters[i];
        let s1 = s.insert(t);
        let n = s.deliveries.len() as int;
        lemma_first_index_from(s.deliveries, delivered_to(w.id), 0);
        assert(s.delivered(w.id) is None);
        assert(s1.deliveries[n].id == w.id);
        assert forall|j: int| 0 <= j < n implies !delivered_to(w.id)(#[trigger] s1.deliveries[j]) by {
            assert(s1.deliveries[j] == s.deliveries[j]);
        }
        lemma_first_index_is(s1.deliveries, delivered_to(w.id), n);
        assert(!s1.is_waiting(w.id)) by {
            if s1.is_waiting(w.id) {
                let k = choose|k: int| 0 <= k < s1.waiters.len() && #[trigger] s1.waiters[k].id == w.id;
                if k < i {
                    assert(s1.waiters[k] == s.waiters[k]);
                } else {
                    assert(s1.waiters[k] == s.waiters[k + 1]);
                }
            }
        }
        assert forall|id: u64| id != w.id implies #[trigger] s1.delivered(id) == s.delivered(id) by {
            lemma_first_index_from(s.deliveries, delivered_to(id), 0);
            match s.first_delivery(id) {
                Some(k) => {
                    assert forall|j: int| 0 <= j < k implies !delivered_to(id)(
                        #[trigger] s1.deliveries[j],
                    ) by {
                        assert(s1.deliveries[j] == s.deliveries[j]);
                    }
                    assert(s1.deliveries[k] == s.deliveries[k]);
                    lemma_first_index_is(s1.deliveries, delivered_to(id), k);
                },
                None => {
                    lemma_first_index_from(s1.deliveries, delivered_to(id), 0);
                    if let Some(k) = s1.first_delivery(id) {
                        if k < n {
                            assert(s1.deliveries[k] == s.deliveries[k]);
                        }
                    }
                },
            }
        }
        assert forall|id: u64| id != w.id implies #[trigger] s1.is_waiting(id) == s.is_waiting(id) by {
            if s.is_waiting(id) {
                let k = choose|k: int| 0 <= k < s.waiters.len() && #[trigger] s.waiters[k].id == id;
                if k < i {
                    assert(s1.waiters[k].id == id);
                } else {
                    assert(s1.waiters[k - 1].id == id);
                }
            }
            if s1.is_waiting(id) {
                let k = choose|k: int| 0 <= k < s1.waiters.len() && #[trigger] s1.waiters[k].id == id;
                if k < i {
                    assert(s.waiters[k].id == id);
                } else {
                    assert(s.waiters[k + 1].id == id);
                }
            }
        }
    }
}

/// A registered query waits: its ticket is held by a waiting query, and
/// nothing has been delivered to it.
pub proof fn lemma_registered_query_waits(s: StoreView, pattern: Seq<Value>, kind: WaiterKind)
    requires
        s.wf(),
        s.can_register(),
    ensures
        s.register(pattern, kind).is_waiting(s.next_id),
        s.register(pattern, kind).delivered(s.next_id) is None,
        s.register(pattern, kind).resident == s.resident,
{
    let s1 = s.register(pattern, kind);
    assert(s1.waiters[s.waiters.len() as int].id == s.next_id);
    lemma_first_index_from(s1.deliveries, delivered_to(s.next_id), 0);
}

/// A delivery is collected once: after it, nothing is delivered to the
/// ticket, and no other ticket's delivery has changed.
pub proof fn lemma_collect_once(s: StoreView, id: u64)
    requires
        s.wf(),
    ensures
        s.collect(id).delivered(id) is None,
        forall|other: u64| other != id ==> #[trigger] s.collect(id).delivered(other) == s.delivered(other),
        s.collect(id).resident == s.resident,
        s.collect(id).waiters == s.waiters,
{
    let s1 = s.collect(id);
    lemma_first_index_from(s.deliveries, delivered_to(id), 0);
    lemma_first_index_from(s1.deliveries, delivered_to(id), 0);
    if let Some(i) = s.first_delivery(id) {
        if let Some(k) = s1.first_delivery(id) {
            if k < i {
                assert(s1.deliveries[k] == s.deliveries[k]);
            } else {
                assert(s1.deliveries[k] == s.deliveries[k + 1]);
            }
        }
        assert forall|other: u64| other != id implies #[trigger] s1.delivered(other) == s.delivered(
            other,
        ) by {
            lemma_first_index_from(s.deliveries, delivered_to(other), 0);
            lemma_first_index_from(s1.deliveries, delivered_to(other), 0);
            match s.first_delivery(other) {
                Some(k) => {
                    let k1 = if k < i { k } else { k - 1 };
                    assert(s1.deliveries[k1] == s.deliveries[k]);
                    assert forall|j: int| 0 <= j < k1 implies !delivered_to(other)(
                        #[trigger] s1.deliveries[j],
                    ) by {
                        if j < i {
                            assert(s1.deliveries[j] == s.deliveries[j]);
                        } else {
                            assert(s1.deliveries[j] == s.deliveries[j + 1]);
                        }
                    }
                    lemma_first_index_is(s1.deliveries, delivered_to(other), k1);
                },
                None => {
                    if let Some(k) = s1.first_delivery(other) {
                        if k < i {
                            assert(s1.deliveries[k] == s.deliveries[k]);
                        } else {
                            assert(s1.deliveries[k] == s.deliveries[k + 1]);
                        }
                    }
                },
            }
        }
    }
}

} // verus!
