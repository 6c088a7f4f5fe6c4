//! The space: one store, and the operations `out`, `in` and `rd` on it as
//! handles that resolve at once or later.
//!
//! Every operation takes the space by `&mut`: whoever shares a space
//! among connections hands it out under a lock, and no operation here
//! waits while it holds the space. A query that finds nothing registers
//! itself and returns; it is resolved inside a later `out`, and learns of
//! it the next time its handle is polled.

use crate::store::{
    lemma_collect_once, lemma_first_index_from, lemma_insert_resolves_one_waiter,
    lemma_read_finds_oldest, lemma_read_keeps_tuple, lemma_registered_query_waits,
    lemma_resolved_read_keeps_tuple, lemma_take_removes_tuple, waits_for, Store, StoreError,
    StoreView, WaiterHandle, WaiterKind,
};
use crate::tuple::{tuple_matches, Tuple, Value};
use vstd::prelude::*;

verus! {

/// The outcome of polling a handle: its resolution, or the handle again.
#[derive(Debug)]
pub enum Async<T, H> {
    /// The operation is complete.
    Ready(T),
    /// The operation is still pending; poll the handle again later.
    NotReady(H),
}

/// The handle of an `in` or `rd`.
#[derive(Debug)]
pub enum QueryHandle {
    /// The query is resolved.
    Done(Result<Option<Tuple>, StoreError>),
    /// The query waits in the store under this ticket.
    Pending(WaiterHandle),
}

/// The handle of an `out`.
#[derive(Debug)]
pub struct OutHandle {
    result: Result<(), StoreError>,
}

/// The mathematical value of a query handle.
pub enum QueryView {
    Done(Result<Option<Seq<Value>>, StoreError>),
    Pending(u64),
}

/// A tuple space.
#[derive(Debug)]
pub struct Space {
    store: Store,
}

impl View for QueryHandle {
    type V = QueryView;

    open spec fn view(&self) -> QueryView {
        match self {
            QueryHandle::Done(Ok(Some(t))) => QueryView::Done(Ok(Some(t@))),
            QueryHandle::Done(Ok(None)) => QueryView::Done(Ok(None)),
            QueryHandle::Done(Err(e)) => QueryView::Done(Err(*e)),
            QueryHandle::Pending(h) => QueryView::Pending(h@),
        }
    }
}

impl View for OutHandle {
    type V = Result<(), StoreError>;

    closed spec fn view(&self) -> Result<(), StoreError> {
        self.result
    }
}

impl View for Space {
    type V = StoreView;

    closed spec fn view(&self) -> StoreView {
        self.store@
    }
}

/// The handle that a query for the pattern returns.
///
/// A query that finds a compatible resident tuple is resolved with the
/// oldest one. Otherwise it waits under the store's next ticket, or
/// fails if the store has none left.
pub open spec fn query_handle(s: StoreView, pattern: Seq<Value>) -> QueryView {
    match s.read(pattern) {
        Some(t) => QueryView::Done(Ok(Some(t))),
        None => if s.can_register() {
            QueryView::Pending(s.next_id)
        } else {
            QueryView::Done(Err(StoreError::TicketsExhausted))
        },
    }
}

/// The store after a query for the pattern.
///
/// A destructive query removes the tuple it finds; a query that finds
/// nothing is registered as waiting, if the store has a ticket left.
pub open spec fn query_store(s: StoreView, pattern: Seq<Value>, kind: WaiterKind) -> StoreView {
    match s.read(pattern) {
        Some(_) => if kind == WaiterKind::Take {
            s.take(pattern)
        } else {
            s
        },
        None => if s.can_register() {
            s.register(pattern, kind)
        } else {
            s
        },
    }
}

/// What polling a query handle returns.
pub open spec fn poll_result(s: StoreView, h: QueryView) -> Option<Result<Option<Seq<Value>>, StoreError>> {
    match h {
        QueryView::Done(r) => Some(r),
        QueryView::Pending(id) => match s.delivered(id) {
            Some(t) => Some(Ok(Some(t))),
            None => None,
        },
    }
}

/// The store after a query handle is polled.
pub open spec fn poll_store(s: StoreView, h: QueryView) -> StoreView {
    match h {
        QueryView::Done(_) => s,
        QueryView::Pending(id) => s.collect(id),
    }
}

/// The store after a query handle is dropped unresolved.
pub open spec fn cancel_store(s: StoreView, h: QueryView) -> StoreView {
    match h {
        QueryView::Done(_) => s,
        QueryView::Pending(id) => s.deregister(id),
    }
}

/// The value of an optional tuple.
pub open spec fn tuple_option_view(t: Option<Tuple>) -> Option<Seq<Value>> {
    match t {
        Some(t) => Some(t@),
        None => None,
    }
}

/// The value of a query's resolution.
pub open spec fn resolution_view(r: Result<Option<Tuple>, StoreError>) -> Result<
    Option<Seq<Value>>,
    StoreError,
> {
    match r {
        Ok(t) => Ok(tuple_option_view(t)),
        Err(e) => Err(e),
    }
}

impl Space {
    /// A space over the given store.
    pub fn new(store: Store) -> (s: Space)
        ensures
            s@ == store@,
    {
        Space { store }
    }

    /// Inserts a tuple. The handle is resolved, with success.
    pub fn out(&mut self, tuple: Tuple) -> (h: OutHandle)
        ensures
            final(self)@ == old(self)@.insert(tuple@),
            h@ == Ok::<(), StoreError>(()),
            old(self)@.wf() ==> final(self)@.wf(),
    {
        self.store.insert(tuple);
        OutHandle { result: Ok(()) }
    }

    /// Retrieves and removes a tuple compatible with the pattern.
    ///
    /// The handle is resolved with the oldest compatible resident tuple,
    /// which leaves the store. If there is none, the query is registered
    /// as a destructive waiter and the handle is pending.
    pub fn in_(&mut self, pattern: Tuple) -> (h: QueryHandle)
        ensures
            h@ == query_handle(old(self)@, pattern@),
            final(self)@ == query_store(old(self)@, pattern@, WaiterKind::Take),
            old(self)@.wf() ==> final(self)@.wf(),
    {
        match self.store.try_take(&pattern) {
            Some(t) => QueryHandle::Done(Ok(Some(t))),
            None => match self.store.register_waiter(pattern, WaiterKind::Take) {
                Ok(handle) => QueryHandle::Pending(handle),
                Err(e) => QueryHandle::Done(Err(e)),
            },
        }
    }

    /// Retrieves a copy of a tuple compatible with the pattern.
    ///
    /// The handle is resolved with the oldest compatible resident tuple,
    /// which stays in the store. If there is none, the query is registered
    /// as a non-destructive waiter and the handle is pending.
    pub fn rd(&mut self, pattern: Tuple) -> (h: QueryHandle)
        ensures
            h@ == query_handle(old(self)@, pattern@),
            final(self)@ == query_store(old(self)@, pattern@, WaiterKind::Read),
            old(self)@.wf() ==> final(self)@.wf(),
    {
        match self.store.try_read(&pattern) {
            Some(t) => QueryHandle::Done(Ok(Some(t))),
            None => match self.store.register_waiter(pattern, WaiterKind::Read) {
                Ok(handle) => QueryHandle::Pending(handle),
                Err(e) => QueryHandle::Done(Err(e)),
            },
        }
    }

    /// The number of resident tuples.
    pub fn len(&self) -> (n: usize)
        ensures
            n == self@.resident.len(),
    {
        self.store.len()
    }

    /// The number of waiting queries.
    pub fn waiting(&self) -> (n: usize)
        ensures
            n == self@.waiters.len(),
    {
        self.store.waiting()
    }
}

impl QueryHandle {
    /// Polls the query.
    ///
    /// A resolved handle gives its resolution. A pending handle gives the
    /// tuple that was delivered to its ticket, and collects it; while
    /// nothing was delivered, it gives the handle back and changes
    /// nothing.
    pub fn poll(self, space: &mut Space) -> (r: Async<Result<Option<Tuple>, StoreError>, QueryHandle>)
        ensures
            match r {
                Async::Ready(res) => poll_result(old(space)@, self@) == Some(resolution_view(res))
                    && final(space)@ == poll_store(old(space)@, self@),
                Async::NotReady(h) => poll_result(old(space)@, self@) is None && h@ == self@
                    && final(space)@ == old(space)@,
            },
            old(space)@.wf() ==> final(space)@.wf(),
    {
        match self {
            QueryHandle::Done(r) => Async::Ready(r),
            QueryHandle::Pending(handle) => match space.store.collect(&handle) {
                Some(t) => Async::Ready(Ok(Some(t))),
                None => Async::NotReady(QueryHandle::Pending(handle)),
            },
        }
    }

    /// Gives the query up: a pending query no longer waits in the space.
    pub fn cancel(self, space: &mut Space)
        ensures
            final(space)@ == cancel_store(old(space)@, self@),
            old(space)@.wf() ==> final(space)@.wf(),
    {
        match self {
            QueryHandle::Done(_) => {},
            QueryHandle::Pending(handle) => {
                space.store.deregister(handle);
            },
        }
    }
}

impl OutHandle {
    /// Polls the insertion, which is complete.
    pub fn poll(self) -> (r: Async<Result<(), StoreError>, OutHandle>)
        ensures
            r == Async::<Result<(), StoreError>, OutHandle>::Ready(self@),
    {
        Async::Ready(self.result)
    }
}

/// An `rd` that is resolved at once leaves its tuple resident, and an
/// `in` for the same pattern that follows is resolved with the same tuple.
pub proof fn lemma_rd_then_in(s: StoreView, pattern: Seq<Value>, t: Seq<Value>)
    requires
        query_handle(s, pattern) == QueryView::Done(Ok(Some(t))),
    ensures
        query_store(s, pattern, WaiterKind::Read) == s,
        s.resident.contains(t),
        query_handle(query_store(s, pattern, WaiterKind::Read), pattern) == QueryView::Done(
            Ok(Some(t)),
        ),
{
    lemma_read_keeps_tuple(s, pattern, t);
}

/// An `in` that is resolved at once removes its tuple: the space holds
/// one copy of it fewer, none if it held one, and nothing else has
/// changed.
pub proof fn lemma_in_consumes(s: StoreView, pattern: Seq<Value>, t: Seq<Value>)
    requires
        query_handle(s, pattern) == QueryView::Done(Ok(Some(t))),
    ensures
        query_store(s, pattern, WaiterKind::Take).resident.to_multiset().count(t)
            == s.resident.to_multiset().count(t) - 1,
        query_store(s, pattern, WaiterKind::Take).resident.len() == s.resident.len() - 1,
        s.resident.to_multiset().count(t) == 1 ==> !query_store(
            s,
            pattern,
            WaiterKind::Take,
        ).resident.contains(t),
        query_store(s, pattern, WaiterKind::Take).waiters == s.waiters,
        query_store(s, pattern, WaiterKind::Take).deliveries == s.deliveries,
{
    lemma_take_removes_tuple(s, pattern, t);
}

/// A query that finds no compatible tuple is pending, and stays pending
/// however often it is polled, until a tuple is delivered to it.
pub proof fn lemma_unmatched_query_is_pending(s: StoreView, pattern: Seq<Value>, kind: WaiterKind)
    requires
        s.wf(),
        s.can_register(),
        s.read(pattern) is None,
    ensures
        query_handle(s, pattern) == QueryView::Pending(s.next_id),
        query_store(s, pattern, kind).is_waiting(s.next_id),
        poll_result(query_store(s, pattern, kind), query_handle(s, pattern)) is None,
        poll_store(query_store(s, pattern, kind), query_handle(s, pattern)) == query_store(
            s,
            pattern,
            kind,
        ),
{
    lemma_registered_query_waits(s, pattern, kind);
}

/// A pending `in` is resolved by the `out` of a compatible tuple, and by
/// it alone: the tuple is delivered to that query, is not resident
/// afterwards, and no other query is resolved or stops waiting. Once the
/// handle has been polled, the delivery is gone.
///
/// This holds where no query that has waited longer is compatible with
/// the tuple.
pub proof fn lemma_blocked_in_resolves_on_out(s: StoreView, pattern: Seq<Value>, t: Seq<Value>)
    requires
        s.wf(),
        s.can_register(),
        s.read(pattern) is None,
        tuple_matches(pattern, t),
        s.first_waiter(t) is None,
    ensures
        ({
            let h = query_handle(s, pattern);
            let s1 = query_store(s, pattern, WaiterKind::Take);
            let s2 = s1.insert(t);
            let s3 = poll_store(s2, h);
            &&& h == QueryView::Pending(s.next_id)
            &&& poll_result(s1, h) is None
            &&& poll_result(s2, h) == Some(Ok::<Option<Seq<Value>>, StoreError>(Some(t)))
            &&& s2.resident == s.resident
            &&& s2.waiters == s.waiters
            &&& forall|id: u64| id != s.next_id ==> #[trigger] s2.delivered(id) == s.delivered(id)
            &&& poll_result(s3, h) is None
            &&& s3.resident == s.resident
            &&& s3.waiters == s.waiters
        }),
{
    let h = query_handle(s, pattern);
    let s1 = query_store(s, pattern, WaiterKind::Take);
    let s2 = s1.insert(t);
    lemma_registered_query_waits(s, pattern, WaiterKind::Take);
    crate::store::lemma_operations_keep_wf(s, pattern, WaiterKind::Take, 0);
    let n = s.waiters.len() as int;
    lemma_first_index_from(s.waiters, waits_for(t), 0);
    assert forall|j: int| 0 <= j < n implies !waits_for(t)(#[trigger] s1.waiters[j]) by {
        assert(s1.waiters[j] == s.waiters[j]);
    }
    crate::store::lemma_first_index_is(s1.waiters, waits_for(t), n);
    lemma_insert_resolves_one_waiter(s1, t);
    assert(s2.waiters =~= s.waiters);
    assert forall|id: u64| id != s.next_id implies #[trigger] s2.delivered(id) == s.delivered(id) by {
        assert(s1.delivered(id) == s.delivered(id));
    }
    crate::store::lemma_operations_keep_wf(s1, t, WaiterKind::Take, 0);
    lemma_collect_once(s2, s.next_id);
}

/// A pending `rd` is resolved by the `out` of a compatible tuple, which
/// becomes resident: an `in` for the same pattern that follows is
/// resolved with it.
///
/// This holds where the `rd` is the query that has waited longest among
/// those compatible with the tuple.
pub proof fn lemma_blocked_rd_keeps_tuple(s: StoreView, pattern: Seq<Value>, t: Seq<Value>)
    requires
        s.wf(),
        s.can_register(),
        s.read(pattern) is None,
        tuple_matches(pattern, t),
        s.first_waiter(t) is None,
    ensures
        ({
            let h = query_handle(s, pattern);
            let s1 = query_store(s, pattern, WaiterKind::Read);
            let s2 = s1.insert(t);
            &&& poll_result(s2, h) == Some(Ok::<Option<Seq<Value>>, StoreError>(Some(t)))
            &&& s2.resident == s.resident.push(t)
            &&& query_handle(poll_store(s2, h), pattern) == QueryView::Done(Ok(Some(t)))
        }),
{
    let h = query_handle(s, pattern);
    let s1 = query_store(s, pattern, WaiterKind::Read);
    let s2 = s1.insert(t);
    lemma_registered_query_waits(s, pattern, WaiterKind::Read);
    crate::store::lemma_operations_keep_wf(s, pattern, WaiterKind::Read, 0);
    let n = s.waiters.len() as int;
    lemma_first_index_from(s.waiters, waits_for(t), 0);
    assert forall|j: int| 0 <= j < n implies !waits_for(t)(#[trigger] s1.waiters[j]) by {
        assert(s1.waiters[j] == s.waiters[j]);
    }
    crate::store::lemma_first_index_is(s1.waiters, waits_for(t), n);
    lemma_insert_resolves_one_waiter(s1, t);
    lemma_resolved_read_keeps_tuple(s1, t);
    crate::store::lemma_operations_keep_wf(s1, t, WaiterKind::Read, 0);
    lemma_collect_once(s2, s.next_id);
    lemma_read_finds_oldest(s2, pattern);
    lemma_read_finds_oldest(poll_store(s2, h), pattern);
}

} // verus!
