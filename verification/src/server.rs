//! The connection state machine.
//!
//! A connection turns the bytes of its channel into lines, parses each
//! line into a statement, issues it against the space, and writes the
//! result and a prompt. While an operation is pending the connection
//! holds its handle and drops whatever input arrives; the handle is
//! polled each time the connection is woken, and the result is written
//! once it resolves.
//!
//! The connection writes into a `Session`, a queue of what the transport
//! is to send; it never blocks. The space comes by `&mut` from whoever
//! shares it: a caller that serves several connections holds the space's
//! lock for the length of one call.

use crate::ast::{Statement, StatementView};
use crate::error::{Error, ParseError};
use crate::grammar::{statement, statement_of};
use crate::render::tuple_text;
use crate::space::{
    cancel_store, lemma_blocked_rd_keeps_tuple, lemma_rd_then_in, lemma_unmatched_query_is_pending,
    poll_result, poll_store, query_handle, query_store, Async, OutHandle, QueryHandle, QueryView,
    Space,
};
use crate::store::{lemma_other_arity_is_never_found, StoreError, StoreView, WaiterKind};
use crate::tuple::tuple_matches;
use crate::tuple::{Tuple, Value};
use vstd::prelude::*;
use vstd::string::{StrSliceExecFns, StringSliceAdditionalSpecFns};
use vstd::utf8::{decode_utf8, encode_utf8, encode_utf8_decode_utf8, valid_utf8};

verus! {

/// The number of a channel within its connection.
#[derive(Clone, Copy, Debug, PartialEq, Eq, Structural)]
pub struct ChannelId(pub u32);

/// The answer to a client that offers a public key.
#[derive(Clone, Copy, Debug, PartialEq, Eq, Structural)]
pub enum Auth {
    Accept,
    Reject,
}

/// What a connection asks its transport to do.
#[derive(Debug, PartialEq, Eq)]
pub enum Output {
    /// Send the bytes on the channel.
    Data(ChannelId, Vec<u8>),
    /// Signal the end of the channel's data.
    Eof(ChannelId),
    /// Close the channel.
    Close(ChannelId),
}

/// The mathematical value of an `Output`.
pub enum OutputView {
    Data(ChannelId, Seq<u8>),
    Eof(ChannelId),
    Close(ChannelId),
}

/// The queue of what the transport is to do, in order.
#[derive(Debug)]
pub struct Session {
    queue: Vec<Output>,
}

/// An operation on the space that a connection has issued.
pub enum SpaceOp {
    /// An `in` or a `rd`.
    Query(QueryHandle),
    /// An `out`.
    Out(OutHandle),
}

/// The mathematical value of a `SpaceOp`.
pub enum OpView {
    Query(QueryView),
    Out(Result<(), StoreError>),
}

/// Where a connection stands.
#[derive(Clone, Copy, Debug, PartialEq, Eq, Structural)]
pub enum State {
    /// No operation is outstanding; input is taken.
    Idle,
    /// An `in` or a `rd` is pending; input is dropped.
    AwaitingQuery,
    /// An `out` is pending; input is dropped.
    AwaitingOut,
    /// The channel is closed; input is dropped.
    Closed,
}

/// The state of one connection.
pub struct H {
    current_line: Vec<u8>,
    op: Option<SpaceOp>,
    closed: bool,
}

/// The mathematical value of a connection.
pub struct HView {
    /// The bytes received since the last carriage return.
    pub line: Seq<u8>,
    /// The pending operation; `None` while the connection is idle.
    pub op: Option<OpView>,
    /// Whether the client has ended the transmission.
    pub closed: bool,
}

/// A connection that has been woken, before its pending operation is
/// polled.
pub struct HFuture {
    h: H,
    op: Option<SpaceOp>,
    session: Session,
    channel: Option<ChannelId>,
}

/// The mathematical value of an `HFuture`.
pub struct HFutureView {
    pub h: HView,
    pub op: Option<OpView>,
    pub session: Seq<OutputView>,
    pub channel: Option<ChannelId>,
}

/// A connection at work on its input: its line buffer, whether it is
/// closed, its pending operation, what it has written, and the space.
pub struct Turn {
    pub line: Seq<u8>,
    pub closed: bool,
    pub op: Option<OpView>,
    pub session: Seq<OutputView>,
    pub space: StoreView,
}

impl View for Output {
    type V = OutputView;

    open spec fn view(&self) -> OutputView {
        match self {
            Output::Data(c, bytes) => OutputView::Data(*c, bytes@),
            Output::Eof(c) => OutputView::Eof(*c),
            Output::Close(c) => OutputView::Close(*c),
        }
    }
}

impl View for Session {
    type V = Seq<OutputView>;

    closed spec fn view(&self) -> Seq<OutputView> {
        self.queue@.map_values(|o: Output| o@)
    }
}

impl View for SpaceOp {
    type V = OpView;

    open spec fn view(&self) -> OpView {
        match self {
            SpaceOp::Query(q) => OpView::Query(q@),
            SpaceOp::Out(o) => OpView::Out(o@),
        }
    }
}

/// The value of an optional operation.
pub open spec fn op_view(op: Option<SpaceOp>) -> Option<OpView> {
    match op {
        Some(op) => Some(op@),
        None => None,
    }
}

impl HView {
    /// Where the connection stands.
    pub open spec fn state(self) -> State {
        if self.closed {
            State::Closed
        } else {
            match self.op {
                None => State::Idle,
                Some(OpView::Query(_)) => State::AwaitingQuery,
                Some(OpView::Out(_)) => State::AwaitingOut,
            }
        }
    }
}

impl View for H {
    type V = HView;

    closed spec fn view(&self) -> HView {
        HView { line: self.current_line@, op: op_view(self.op), closed: self.closed }
    }
}

impl View for HFuture {
    type V = HFutureView;

    closed spec fn view(&self) -> HFutureView {
        HFutureView { h: self.h@, op: op_view(self.op), session: self.session@, channel: self.channel }
    }
}

/// The byte that ends a line.
pub open spec fn carriage_return() -> u8 {
    0x0d
}

/// The byte that ends the transmission.
pub open spec fn end_of_transmission() -> u8 {
    0x04
}

/// The greeting of a new channel.
pub open spec fn banner() -> Seq<char> {
    "sshtupd: welcome to tuplespace\r\n"@
}

/// The prompt.
pub open spec fn prompt() -> Seq<char> {
    "\r\n> "@
}

/// The request to send a text on a channel.
pub open spec fn text_output(channel: ChannelId, text: Seq<char>) -> OutputView {
    OutputView::Data(channel, encode_utf8(text))
}

/// What a line holds: nothing if it is empty, else the statement it
/// spells, or why it spells none.
pub open spec fn line_statement(line: Seq<u8>) -> Result<Option<StatementView>, Error> {
    if line.len() == 0 {
        Ok(None)
    } else if !valid_utf8(line) {
        Err(Error::Decode)
    } else {
        match statement_of(decode_utf8(line)) {
            Some(st) => Ok(Some(st)),
            None => Err(Error::Parse(ParseError)),
        }
    }
}

/// The text that reports how a query was resolved.
pub open spec fn resolution_text(r: Result<Option<Seq<Value>>, StoreError>) -> Seq<char> {
    match r {
        Ok(Some(t)) => tuple_text(t),
        Ok(None) => "none"@,
        Err(e) => Error::Store(e).chain_text(),
    }
}

/// The text that reports how an insertion was resolved.
pub open spec fn out_text(r: Result<(), StoreError>) -> Seq<char> {
    match r {
        Ok(_) => "ok"@,
        Err(e) => Error::Store(e).chain_text(),
    }
}

/// The handle of a statement issued against a space.
pub open spec fn issued_op(st: StatementView, space: StoreView) -> OpView {
    match st {
        StatementView::In(p) => OpView::Query(query_handle(space, p)),
        StatementView::Rd(p) => OpView::Query(query_handle(space, p)),
        StatementView::Out(t) => OpView::Out(Ok(())),
    }
}

/// The space after a statement is issued against it.
pub open spec fn issued_space(st: StatementView, space: StoreView) -> StoreView {
    match st {
        StatementView::In(p) => query_store(space, p, WaiterKind::Take),
        StatementView::Rd(p) => query_store(space, p, WaiterKind::Read),
        StatementView::Out(t) => space.insert(t),
    }
}

/// The text that reports the result of an operation, once it is
/// resolved.
pub open spec fn settled_text(op: OpView, space: StoreView) -> Option<Seq<char>> {
    match op {
        OpView::Query(q) => match poll_result(space, q) {
            Some(r) => Some(resolution_text(r)),
            None => None,
        },
        OpView::Out(r) => Some(out_text(r)),
    }
}

/// The operation after it is polled once: none if it is resolved.
pub open spec fn settled_op(op: OpView, space: StoreView) -> Option<OpView> {
    if settled_text(op, space) is Some {
        None
    } else {
        Some(op)
    }
}

/// The space after an operation is polled once.
pub open spec fn settled_space(op: OpView, space: StoreView) -> StoreView {
    match op {
        OpView::Query(q) => poll_store(space, q),
        OpView::Out(_) => space,
    }
}

impl Turn {
    /// The turn with one more request to the transport.
    pub open spec fn write(self, output: OutputView) -> Turn {
        Turn { session: self.session.push(output), ..self }
    }

    /// The turn after its pending operation is polled once.
    ///
    /// If the operation is resolved, its result and a prompt are written
    /// and the connection is idle again. If it is not, nothing changes.
    pub open spec fn settle(self, channel: ChannelId) -> Turn {
        match self.op {
            None => self,
            Some(op) => {
                let t = Turn {
                    op: settled_op(op, self.space),
                    space: settled_space(op, self.space),
                    ..self
                };
                match settled_text(op, self.space) {
                    Some(text) => t.write(text_output(channel, text)).write(
                        text_output(channel, prompt()),
                    ),
                    None => t,
                }
            },
        }
    }

    /// The turn after a carriage return.
    ///
    /// The carriage return is not echoed, and the line buffer is emptied.
    /// An empty line is answered with a prompt, a line that is no
    /// statement with the error and a prompt. A statement is issued
    /// against the space, and its handle is polled once.
    pub open spec fn enter(self, channel: ChannelId) -> Turn {
        let t = Turn { line: Seq::empty(), ..self };
        match line_statement(self.line) {
            Ok(None) => t.write(text_output(channel, prompt())),
            Err(e) => t.write(text_output(channel, e.chain_text())).write(
                text_output(channel, prompt()),
            ),
            Ok(Some(st)) => Turn {
                op: Some(issued_op(st, t.space)),
                space: issued_space(st, t.space),
                ..t
            }.settle(channel),
        }
    }

    /// The turn after one byte of input is taken.
    ///
    /// The end-of-transmission byte ends and closes the channel. A
    /// carriage return ends the line. Any other byte joins the line and
    /// is echoed.
    pub open spec fn step(self, channel: ChannelId, byte: u8) -> Turn {
        if byte == end_of_transmission() {
            Turn { closed: true, ..self }.write(OutputView::Eof(channel)).write(
                OutputView::Close(channel),
            )
        } else if byte == carriage_return() {
            self.enter(channel)
        } else {
            Turn { line: self.line.push(byte), ..self }.write(OutputView::Data(channel, seq![byte]))
        }
    }

    /// The turn after the input is taken, byte by byte, for as long as
    /// the connection is idle and open. What arrives while an operation
    /// is pending, or after the channel is closed, is dropped.
    pub open spec fn feed(self, channel: ChannelId, input: Seq<u8>) -> Turn
        decreases input.len(),
    {
        if input.len() == 0 || self.op is Some || self.closed {
            self
        } else {
            self.step(channel, input[0]).feed(channel, input.drop_first())
        }
    }
}

/// The woken connection that `H::data` returns, and the space after it.
pub open spec fn data_spec(
    h: HView,
    channel: ChannelId,
    input: Seq<u8>,
    session: Seq<OutputView>,
    space: StoreView,
) -> (HFutureView, StoreView) {
    let t = Turn { line: h.line, closed: h.closed, op: h.op, session, space }.feed(channel, input);
    (
        HFutureView {
            h: HView { line: t.line, op: None, closed: t.closed },
            op: t.op,
            session: t.session,
            channel: Some(channel),
        },
        t.space,
    )
}

/// The connection and session that `HFuture::poll` returns, and the
/// space after it.
pub open spec fn poll_spec(f: HFutureView, space: StoreView) -> (
    Result<(HView, Seq<OutputView>), ()>,
    StoreView,
) {
    match f.op {
        None => (Ok((f.h, f.session)), space),
        Some(op) => match f.channel {
            None => (Err(()), abandoned_space(f.op, space)),
            Some(channel) => {
                let t = Turn {
                    line: f.h.line,
                    closed: f.h.closed,
                    op: f.op,
                    session: f.session,
                    space,
                }.settle(channel);
                (Ok((HView { op: t.op, ..f.h }, t.session)), t.space)
            },
        },
    }
}

/// The space after a connection gives up its pending operation: a query
/// that waits is withdrawn.
pub open spec fn abandoned_space(op: Option<OpView>, space: StoreView) -> StoreView {
    match op {
        Some(OpView::Query(q)) => cancel_store(space, q),
        _ => space,
    }
}

/// `std::str::from_utf8`: the bytes as a string, or `None` if they are
/// not valid UTF-8. Believed, not proved: the conversion succeeds
/// exactly on valid UTF-8, and the string it gives has the bytes it was
/// given.
#[verifier::external_body]
fn decode_line(bytes: &[u8]) -> (r: Option<&str>)
    ensures
        r is Some <==> valid_utf8(bytes@),
        r matches Some(s) ==> s.spec_bytes() == bytes@,
{
    std::str::from_utf8(bytes).ok()
}

impl Session {
    /// A session with nothing to send.
    pub fn new() -> (s: Session)
        ensures
            s@ == Seq::<OutputView>::empty(),
    {
        let s = Session { queue: Vec::new() };
        assert(s@ =~= Seq::<OutputView>::empty());
        s
    }

    /// Queues bytes for a channel.
    pub fn data(&mut self, channel: ChannelId, bytes: Vec<u8>)
        ensures
            final(self)@ == old(self)@.push(OutputView::Data(channel, bytes@)),
    {
        self.queue.push(Output::Data(channel, bytes));
        assert(self@ =~= old(self)@.push(OutputView::Data(channel, bytes@)));
    }

    /// Queues the end of a channel's data.
    pub fn eof(&mut self, channel: ChannelId)
        ensures
            final(self)@ == old(self)@.push(OutputView::Eof(channel)),
    {
        self.queue.push(Output::Eof(channel));
        assert(self@ =~= old(self)@.push(OutputView::Eof(channel)));
    }

    /// Queues the closing of a channel.
    pub fn close(&mut self, channel: ChannelId)
        ensures
            final(self)@ == old(self)@.push(OutputView::Close(channel)),
    {
        self.queue.push(Output::Close(channel));
        assert(self@ =~= old(self)@.push(OutputView::Close(channel)));
    }

    /// How many requests are queued.
    pub fn len(&self) -> (n: usize)
        ensures
            n == self@.len(),
    {
        self.queue.len()
    }

    /// Hands the queue over, oldest request first.
    pub fn into_outputs(self) -> (outputs: Vec<Output>)
        ensures
            outputs@.map_values(|o: Output| o@) == self@,
    {
        self.queue
    }
}

impl SpaceOp {
    /// The kind of the operation, by name.
    pub fn name(&self) -> (s: &'static str)
        ensures
            s@ == (match self {
                SpaceOp::Query(_) => "Query"@,
                SpaceOp::Out(_) => "Out"@,
            }),
    {
        match self {
            SpaceOp::Query(_) => "Query",
            SpaceOp::Out(_) => "Out",
        }
    }
}

impl H {
    /// An idle connection with an empty line buffer.
    pub fn new() -> (h: H)
        ensures
            h@ == (HView { line: Seq::empty(), op: None, closed: false }),
    {
        H { current_line: Vec::new(), op: None, closed: false }
    }

    /// Where the connection stands.
    pub fn state(&self) -> (s: State)
        ensures
            s == self@.state(),
    {
        if self.closed {
            State::Closed
        } else {
            match &self.op {
                None => State::Idle,
                Some(SpaceOp::Query(_)) => State::AwaitingQuery,
                Some(SpaceOp::Out(_)) => State::AwaitingOut,
            }
        }
    }

    /// Whether the client has ended the transmission.
    pub fn is_closed(&self) -> (b: bool)
        ensures
            b == self@.closed,
    {
        self.closed
    }

    /// Whether an operation is pending.
    pub fn is_pending(&self) -> (b: bool)
        ensures
            b == self@.op is Some,
    {
        self.op.is_some()
    }

    /// The connection with a pending operation.
    fn with_op(self, op: Option<SpaceOp>) -> (h: H)
        ensures
            h@ == (HView { op: op_view(op), ..self@ }),
    {
        H { current_line: self.current_line, op, closed: self.closed }
    }

    /// Takes the buffered line and parses it.
    ///
    /// An empty buffer gives `None`. Otherwise the buffer is emptied, and
    /// the line gives its statement, or the reason why it has none: it is
    /// not valid UTF-8, or it does not follow the grammar.
    pub fn readline(&mut self) -> (r: Result<Option<Statement>, Error>)
        ensures
            final(self)@ == (HView { line: Seq::empty(), ..old(self)@ }),
            match r {
                Ok(Some(st)) => line_statement(old(self)@.line) == Ok::<Option<StatementView>, Error>(
                    Some(st@),
                ),
                Ok(None) => line_statement(old(self)@.line) == Ok::<Option<StatementView>, Error>(None),
                Err(e) => line_statement(old(self)@.line) == Err::<Option<StatementView>, Error>(e),
            },
    {
        if self.current_line.len() == 0 {
            assert(self.current_line@ =~= Seq::<u8>::empty());
            return Ok(None);
        }
        let mut raw_line: Vec<u8> = Vec::new();
        std::mem::swap(&mut self.current_line, &mut raw_line);
        let line = match decode_line(raw_line.as_slice()) {
            Some(line) => line,
            None => {
                return Err(Error::Decode);
            },
        };
        proof {
            encode_utf8_decode_utf8(line@);
        }
        match statement(line) {
            Ok(st) => Ok(Some(st)),
            Err(e) => Err(Error::Parse(e)),
        }
    }

    /// Queues a tuple's text for a channel.
    pub fn write_tup(session: &mut Session, channel: ChannelId, tup: &Tuple)
        ensures
            final(session)@ == old(session)@.push(text_output(channel, tuple_text(tup@))),
    {
        let msg = tup.render();
        H::write_string(session, channel, msg.as_str());
    }

    /// Queues a text for a channel.
    pub fn write_string(session: &mut Session, channel: ChannelId, msg: &str)
        ensures
            final(session)@ == old(session)@.push(text_output(channel, msg@)),
    {
        session.data(channel, msg.as_bytes_vec());
    }

    /// Queues an error's chain for a channel.
    pub fn write_error(session: &mut Session, channel: ChannelId, e: Error)
        ensures
            final(session)@ == old(session)@.push(text_output(channel, e.chain_text())),
    {
        let msg = e.display_chain();
        H::write_string(session, channel, msg.as_str());
    }

    /// Queues the prompt for a channel.
    pub fn write_prompt(session: &mut Session, channel: ChannelId)
        ensures
            final(session)@ == old(session)@.push(text_output(channel, prompt())),
    {
        H::write_string(session, channel, "\r\n> ");
    }

    /// Accepts any public key: this service is open to all.
    pub fn auth_publickey(self, user: &str, key: &[u8]) -> (r: (H, Auth))
        ensures
            r.0@ == self@,
            r.1 == Auth::Accept,
    {
        (self, Auth::Accept)
    }

    /// Wakes the connection with nothing new: its pending operation, if
    /// it has one, moves into the result, with no channel to answer on.
    pub fn finished(self, session: Session) -> (f: HFuture)
        ensures
            f@ == (HFutureView {
                h: HView { op: None, ..self@ },
                op: self@.op,
                session: session@,
                channel: None,
            }),
    {
        let H { current_line, op, closed } = self;
        HFuture::new(H { current_line, op: None, closed }, op, session, None)
    }

    /// Greets a new channel with the banner and a prompt.
    pub fn channel_open_session(self, channel: ChannelId, session: Session) -> (f: HFuture)
        ensures
            f@ == (HFutureView {
                h: HView { op: None, ..self@ },
                op: self@.op,
                session: session@.push(text_output(channel, banner())).push(
                    text_output(channel, prompt()),
                ),
                channel: None,
            }),
    {
        let mut session = session;
        H::write_string(&mut session, channel, "sshtupd: welcome to tuplespace\r\n");
        H::write_prompt(&mut session, channel);
        self.finished(session)
    }

    /// Ends the connection's work on a channel that the client has
    /// closed: the connection is closed, and a query that it waits for
    /// is withdrawn from the space.
    pub fn channel_close(self, channel: ChannelId, session: Session, space: &mut Space) -> (f: HFuture)
        ensures
            f@ == (HFutureView {
                h: HView { op: None, closed: true, ..self@ },
                op: None,
                session: session@,
                channel: Some(channel),
            }),
            final(space)@ == abandoned_space(self@.op, old(space)@),
            old(space)@.wf() ==> final(space)@.wf(),
    {
        let H { current_line, op, closed } = self;
        abandon(op, space);
        HFuture::new(H { current_line, op: None, closed: true }, None, session, Some(channel))
    }

    /// Takes the input of a channel.
    ///
    /// While an operation is pending, or once the channel is closed, the
    /// input is dropped. Otherwise every byte is taken in turn: the
    /// end-of-transmission byte ends and closes the channel; a carriage
    /// return ends the line, which is parsed, issued against the space
    /// and polled once; any other byte joins the line and is echoed. The
    /// rest of the input is dropped as soon as an operation is pending.
    pub fn data(self, channel: ChannelId, data: &[u8], session: Session, space: &mut Space) -> (f:
        HFuture)
        ensures
            (f@, final(space)@) == data_spec(self@, channel, data@, session@, old(space)@),
            old(space)@.wf() ==> final(space)@.wf(),
    {
        let ghost start = Turn {
            line: self@.line,
            closed: self@.closed,
            op: self@.op,
            session: session@,
            space: space@,
        };
        let H { current_line, op, closed } = self;
        let mut h = H { current_line, op: None, closed };
        let mut op = op;
        let mut session = session;
        let mut i: usize = 0;
        assert(data@.skip(0) =~= data@);
        while i < data.len() && op.is_none() && !h.closed
            invariant
                i <= data@.len(),
                h.op is None,
                old(space)@.wf() ==> space@.wf(),
                start.feed(channel, data@) == (Turn {
                    line: h.current_line@,
                    closed: h.closed,
                    op: op_view(op),
                    session: session@,
                    space: space@,
                }).feed(channel, data@.skip(i as int)),
            decreases data@.len() - i,
        {
            let byte = data[i];
            assert(data@.skip(i as int).drop_first() =~= data@.skip(i + 1));
            if byte == 0x04 {
                session.eof(channel);
                session.close(channel);
                h.closed = true;
            } else if byte == 0x0d {
                op = h.enter(channel, &mut session, space);
            } else {
                h.current_line.push(byte);
                let mut echo: Vec<u8> = Vec::new();
                echo.push(byte);
                assert(echo@ =~= seq![byte]);
                session.data(channel, echo);
            }
            i += 1;
        }
        HFuture::new(h, op, session, Some(channel))
    }

    /// Ends the line: parses the line, issues its
    /// statement and polls the handle once. Returns the operation, if it
    /// is still pending.
    fn enter(&mut self, channel: ChannelId, session: &mut Session, space: &mut Space) -> (op: Option<
        SpaceOp,
    >)
        requires
            old(self).op is None,
        ensures
            final(self).op is None,
            (Turn {
                line: final(self).current_line@,
                closed: final(self).closed,
                op: op_view(op),
                session: final(session)@,
                space: final(space)@,
            }) == (Turn {
                line: old(self).current_line@,
                closed: old(self).closed,
                op: None,
                session: old(session)@,
                space: old(space)@,
            }).enter(channel),
            old(space)@.wf() ==> final(space)@.wf(),
    {
        match self.readline() {
            Ok(Some(st)) => {
                let op = issue(st, space);
                settle(op, channel, session, space)
            },
            Ok(None) => {
                H::write_prompt(session, channel);
                None
            },
            Err(e) => {
                H::write_error(session, channel, e);
                H::write_prompt(session, channel);
                None
            },
        }
    }
}

/// Gives an operation up: a query that waits is withdrawn.
fn abandon(op: Option<SpaceOp>, space: &mut Space)
    ensures
        final(space)@ == abandoned_space(op_view(op), old(space)@),
        old(space)@.wf() ==> final(space)@.wf(),
{
    match op {
        Some(SpaceOp::Query(q)) => {
            q.cancel(space);
        },
        _ => {},
    }
}

/// Issues a statement against the space.
fn issue(st: Statement, space: &mut Space) -> (op: SpaceOp)
    ensures
        op@ == issued_op(st@, old(space)@),
        final(space)@ == issued_space(st@, old(space)@),
        old(space)@.wf() ==> final(space)@.wf(),
{
    match st {
        Statement::In(p) => SpaceOp::Query(space.in_(p)),
        Statement::Rd(p) => SpaceOp::Query(space.rd(p)),
        Statement::Out(t) => SpaceOp::Out(space.out(t)),
    }
}

/// Polls an operation once. If it is resolved, writes its result and a
/// prompt; if not, gives the operation back.
fn settle(op: SpaceOp, channel: ChannelId, session: &mut Session, space: &mut Space) -> (r: Option<
    SpaceOp,
>)
    ensures
        op_view(r) == settled_op(op@, old(space)@),
        final(space)@ == settled_space(op@, old(space)@),
        final(session)@ == (match settled_text(op@, old(space)@) {
            Some(text) => old(session)@.push(text_output(channel, text)).push(
                text_output(channel, prompt()),
            ),
            None => old(session)@,
        }),
        old(space)@.wf() ==> final(space)@.wf(),
{
    match op {
        SpaceOp::Query(q) => match q.poll(space) {
            Async::Ready(Ok(Some(tup))) => {
                H::write_tup(session, channel, &tup);
                H::write_prompt(session, channel);
                None
            },
            Async::Ready(Ok(None)) => {
                H::write_string(session, channel, "none");
                H::write_prompt(session, channel);
                None
            },
            Async::Ready(Err(e)) => {
                H::write_error(session, channel, Error::Store(e));
                H::write_prompt(session, channel);
                None
            },
            Async::NotReady(q) => Some(SpaceOp::Query(q)),
        },
        SpaceOp::Out(o) => match o.poll() {
            Async::Ready(Ok(())) => {
                H::write_string(session, channel, "ok");
                H::write_prompt(session, channel);
                None
            },
            Async::Ready(Err(e)) => {
                H::write_error(session, channel, Error::Store(e));
                H::write_prompt(session, channel);
                None
            },
            Async::NotReady(o) => Some(SpaceOp::Out(o)),
        },
    }
}

impl HFuture {
    /// A woken connection.
    pub fn new(h: H, op: Option<SpaceOp>, session: Session, channel: Option<ChannelId>) -> (f: HFuture)
        ensures
            f@ == (HFutureView { h: h@, op: op_view(op), session: session@, channel }),
    {
        HFuture { h, op, session, channel }
    }

    /// Polls the pending operation once and returns the connection and
    /// its session.
    ///
    /// With no operation pending, nothing happens. A resolved operation
    /// has its result and a prompt written, and the connection is idle;
    /// an unresolved one stays with the connection, and nothing is
    /// written. A pending operation with no channel to answer on is an
    /// error: the operation is given up.
    pub fn poll(self, space: &mut Space) -> (r: Result<(H, Session), ()>)
        ensures
            match r {
                Ok((h, session)) => (
                    Ok::<(HView, Seq<OutputView>), ()>((h@, session@)),
                    final(space)@,
                ) == poll_spec(self@, old(space)@),
                Err(_) => (Err::<(HView, Seq<OutputView>), ()>(()), final(space)@) == poll_spec(
                    self@,
                    old(space)@,
                ),
            },
            old(space)@.wf() ==> final(space)@.wf(),
    {
        let HFuture { h, op, session, channel } = self;
        let mut session = session;
        let op = match op {
            Some(op) => op,
            None => {
                return Ok((h, session));
            },
        };
        let channel = match channel {
            Some(channel) => channel,
            None => {
                abandon(Some(op), space);
                return Err(());
            },
        };
        let left = settle(op, channel, &mut session, space);
        Ok((h.with_op(left), session))
    }
}

/// A connection has at most one operation outstanding: input that
/// arrives while its operation is unresolved is dropped. Nothing is
/// written, and neither the connection nor the space changes, whatever
/// the input holds and however often the connection is woken.
pub proof fn lemma_input_is_dropped_while_pending(
    h: HView,
    channel: ChannelId,
    input: Seq<u8>,
    session: Seq<OutputView>,
    space: StoreView,
)
    requires
        h.op is Some,
        settled_text(h.op->0, space) is None,
    ensures
        data_spec(h, channel, input, session, space).0.session == session,
        data_spec(h, channel, input, session, space).1 == space,
        poll_spec(
            data_spec(h, channel, input, session, space).0,
            data_spec(h, channel, input, session, space).1,
        ) == (Ok::<(HView, Seq<OutputView>), ()>((h, session)), space),
{
}

/// Once its operation is resolved, a woken connection writes the result
/// and a prompt, and is idle again: its next input is taken.
pub proof fn lemma_resolved_operation_is_answered(
    h: HView,
    channel: ChannelId,
    input: Seq<u8>,
    session: Seq<OutputView>,
    space: StoreView,
)
    requires
        h.op is Some,
        settled_text(h.op->0, space) is Some,
    ensures
        poll_spec(
            data_spec(h, channel, input, session, space).0,
            data_spec(h, channel, input, session, space).1,
        ) == (
            Ok::<(HView, Seq<OutputView>), ()>(
                (
                    HView { op: None, ..h },
                    session.push(text_output(channel, settled_text(h.op->0, space)->0)).push(
                        text_output(channel, prompt()),
                    ),
                ),
            ),
            settled_space(h.op->0, space),
        ),
{
}

/// A closed connection drops its input.
pub proof fn lemma_closed_connection_drops_input(
    h: HView,
    channel: ChannelId,
    input: Seq<u8>,
    session: Seq<OutputView>,
    space: StoreView,
)
    requires
        h.closed,
    ensures
        data_spec(h, channel, input, session, space) == (
            HFutureView { h: HView { op: None, ..h }, op: h.op, session, channel: Some(channel) },
            space,
        ),
{
}

/// Every line is answered at once or leaves an operation pending: after
/// a carriage return an idle connection has written either a prompt (the
/// line was empty), or one text and a prompt (an error, or the result of
/// the statement), or nothing, in which case the statement's operation
/// is pending.
pub proof fn lemma_line_is_answered_once(t: Turn, channel: ChannelId)
    requires
        t.op is None,
    ensures
        ({
            let after = t.enter(channel);
            let before = t.session;
            &&& after.line == Seq::<u8>::empty()
            &&& after.closed == t.closed
            &&& match line_statement(t.line) {
                Ok(None) => after.op is None && after.space == t.space && after.session == before.push(
                    text_output(channel, prompt()),
                ),
                Err(e) => after.op is None && after.space == t.space && after.session == before.push(
                    text_output(channel, e.chain_text()),
                ).push(text_output(channel, prompt())),
                Ok(Some(st)) => {
                    let op = issued_op(st, t.space);
                    let space = issued_space(st, t.space);
                    match settled_text(op, space) {
                        Some(text) => after.op is None && after.session == before.push(
                            text_output(channel, text),
                        ).push(text_output(channel, prompt())),
                        None => after.op == Some(op) && after.session == before,
                    }
                },
            }
        }),
{
}

/// The input that is one carriage return.
pub open spec fn one_return() -> Seq<u8> {
    seq![carriage_return()]
}

/// Whether a statement is a query: an `in` or a `rd`.
pub open spec fn is_query(st: StatementView) -> bool {
    st is In || st is Rd
}

/// The kind of waiter that a query registers.
pub open spec fn waiter_kind(st: StatementView) -> WaiterKind {
    if st is In {
        WaiterKind::Take
    } else {
        WaiterKind::Read
    }
}

/// An idle, open connection that receives one carriage return ends its
/// line.
pub proof fn lemma_return_ends_the_line(
    h: HView,
    channel: ChannelId,
    session: Seq<OutputView>,
    space: StoreView,
)
    requires
        h.op is None,
        !h.closed,
    ensures
        ({
            let after = (Turn { line: h.line, closed: false, op: None, session, space }).enter(channel);
            data_spec(h, channel, one_return(), session, space) == (
                HFutureView {
                    h: HView { line: after.line, op: None, closed: after.closed },
                    op: after.op,
                    session: after.session,
                    channel: Some(channel),
                },
                after.space,
            )
        }),
{
    let start = Turn { line: h.line, closed: false, op: None, session, space };
    let input = one_return();
    assert(input.drop_first() =~= Seq::<u8>::empty());
    assert(start.feed(channel, input) == start.step(channel, input[0]).feed(
        channel,
        input.drop_first(),
    ));
}

/// An empty line is answered with the prompt and nothing else: the
/// carriage return is not echoed, the connection stays idle with an
/// empty line buffer, and the space is not touched.
pub proof fn lemma_empty_line_gets_the_prompt(
    h: HView,
    channel: ChannelId,
    session: Seq<OutputView>,
    space: StoreView,
)
    requires
        h.op is None,
        !h.closed,
        h.line.len() == 0,
    ensures
        data_spec(h, channel, one_return(), session, space) == (
            HFutureView {
                h: HView { line: Seq::empty(), op: None, closed: false },
                op: None,
                session: session.push(text_output(channel, prompt())),
                channel: Some(channel),
            },
            space,
        ),
        poll_spec(
            data_spec(h, channel, one_return(), session, space).0,
            space,
        ) == (
            Ok::<(HView, Seq<OutputView>), ()>(
                (
                    HView { line: Seq::empty(), op: None, closed: false },
                    session.push(text_output(channel, prompt())),
                ),
            ),
            space,
        ),
{
    lemma_return_ends_the_line(h, channel, session, space);
}

/// A query that finds no compatible tuple blocks its connection: nothing
/// is written, the line buffer is empty, the query waits in the space
/// under a new ticket, no resident tuple is removed, and the connection
/// holds the pending handle. However often the connection is woken, this
/// stays so until a tuple is delivered.
///
/// This holds where the store has a ticket left.
pub proof fn lemma_unmatched_query_blocks(
    h: HView,
    channel: ChannelId,
    session: Seq<OutputView>,
    space: StoreView,
    st: StatementView,
)
    requires
        h.op is None,
        !h.closed,
        line_statement(h.line) == Ok::<Option<StatementView>, Error>(Some(st)),
        is_query(st),
        space.wf(),
        space.can_register(),
        space.read(st.tuple()) is None,
    ensures
        ({
            let (f, after) = data_spec(h, channel, one_return(), session, space);
            let pending = Some(OpView::Query(QueryView::Pending(space.next_id)));
            &&& f.session == session
            &&& f.h.line == Seq::<u8>::empty()
            &&& f.op == pending
            &&& after == space.register(st.tuple(), waiter_kind(st))
            &&& after.resident == space.resident
            &&& after.is_waiting(space.next_id)
            &&& poll_spec(f, after) == (
                Ok::<(HView, Seq<OutputView>), ()>(
                    (HView { line: Seq::empty(), op: pending, closed: false }, session),
                ),
                after,
            )
        }),
{
    lemma_return_ends_the_line(h, channel, session, space);
    lemma_unmatched_query_is_pending(space, st.tuple(), waiter_kind(st));
}

/// A query never matches a tuple of another arity, not as a prefix
/// either: where every resident tuple has another length than the
/// pattern, the query blocks its connection, and no tuple is removed or
/// reported.
///
/// This holds where the store has a ticket left.
pub proof fn lemma_query_of_other_arity_blocks(
    h: HView,
    channel: ChannelId,
    session: Seq<OutputView>,
    space: StoreView,
    st: StatementView,
)
    requires
        h.op is None,
        !h.closed,
        line_statement(h.line) == Ok::<Option<StatementView>, Error>(Some(st)),
        is_query(st),
        space.wf(),
        space.can_register(),
        forall|i: int|
            0 <= i < space.resident.len() ==> (#[trigger] space.resident[i]).len() != st.tuple().len(),
    ensures
        ({
            let (f, after) = data_spec(h, channel, one_return(), session, space);
            &&& f.session == session
            &&& f.op == Some(OpView::Query(QueryView::Pending(space.next_id)))
            &&& after.resident == space.resident
            &&& poll_spec(f, after).0 == Ok::<(HView, Seq<OutputView>), ()>(
                (HView { line: Seq::empty(), op: f.op, closed: false }, session),
            )
            &&& poll_spec(f, after).1 == after
        }),
{
    lemma_other_arity_is_never_found(space, st.tuple());
    lemma_unmatched_query_blocks(h, channel, session, space, st);
}

/// A query that finds a compatible tuple is answered at once: the
/// oldest such tuple and a prompt are written, and the connection is
/// idle. A `rd` leaves the space as it was; an `in` removes the tuple.
pub proof fn lemma_matched_query_is_answered(
    h: HView,
    channel: ChannelId,
    session: Seq<OutputView>,
    space: StoreView,
    st: StatementView,
    t: Seq<Value>,
)
    requires
        h.op is None,
        !h.closed,
        line_statement(h.line) == Ok::<Option<StatementView>, Error>(Some(st)),
        is_query(st),
        space.read(st.tuple()) == Some(t),
    ensures
        ({
            let (f, after) = data_spec(h, channel, one_return(), session, space);
            let answered = session.push(text_output(channel, tuple_text(t))).push(
                text_output(channel, prompt()),
            );
            &&& f.session == answered
            &&& f.h.line == Seq::<u8>::empty()
            &&& f.op is None
            &&& after == (if st is In {
                space.take(st.tuple())
            } else {
                space
            })
            &&& poll_spec(f, after) == (
                Ok::<(HView, Seq<OutputView>), ()>(
                    (HView { line: Seq::empty(), op: None, closed: false }, answered),
                ),
                after,
            )
        }),
{
    lemma_return_ends_the_line(h, channel, session, space);
}

/// A `rd` leaves its tuple for the `in` that follows: where a
/// connection's `rd` is answered with a tuple, an `in` for the same
/// pattern on the space as the `rd` left it is answered with the same
/// tuple, which then leaves the space.
pub proof fn lemma_rd_then_in_answer_alike(
    reading: HView,
    taking: HView,
    channel: ChannelId,
    session: Seq<OutputView>,
    space: StoreView,
    pattern: Seq<Value>,
    t: Seq<Value>,
)
    requires
        reading.op is None,
        !reading.closed,
        taking.op is None,
        !taking.closed,
        line_statement(reading.line) == Ok::<Option<StatementView>, Error>(
            Some(StatementView::Rd(pattern)),
        ),
        line_statement(taking.line) == Ok::<Option<StatementView>, Error>(
            Some(StatementView::In(pattern)),
        ),
        space.read(pattern) == Some(t),
    ensures
        ({
            let (read, between) = data_spec(reading, channel, one_return(), session, space);
            let (taken, after) = data_spec(taking, channel, one_return(), read.session, between);
            let answer = text_output(channel, tuple_text(t));
            let ready = text_output(channel, prompt());
            &&& read.session == session.push(answer).push(ready)
            &&& between == space
            &&& between.resident.contains(t)
            &&& taken.session == session.push(answer).push(ready).push(answer).push(ready)
            &&& taken.op is None
            &&& after == space.take(pattern)
        }),
{
    lemma_matched_query_is_answered(reading, channel, session, space, StatementView::Rd(pattern), t);
    lemma_rd_then_in(space, pattern, t);
    let between = data_spec(reading, channel, one_return(), session, space);
    lemma_matched_query_is_answered(
        taking,
        channel,
        between.0.session,
        space,
        StatementView::In(pattern),
        t,
    );
}

/// A `rd` that had to wait leaves its tuple for the `in` that follows
/// too: the connection's `rd` blocks, a compatible tuple is inserted,
/// the woken connection writes that tuple and a prompt, and its `in` for
/// the same pattern is answered with the same tuple.
///
/// This holds where the store has a ticket left, and where no query that
/// has waited longer is compatible with the tuple.
pub proof fn lemma_blocked_rd_then_in_answer_alike(
    h: HView,
    taking: Seq<u8>,
    channel: ChannelId,
    session: Seq<OutputView>,
    space: StoreView,
    pattern: Seq<Value>,
    t: Seq<Value>,
    input: Seq<u8>,
)
    requires
        h.op is None,
        !h.closed,
        line_statement(h.line) == Ok::<Option<StatementView>, Error>(
            Some(StatementView::Rd(pattern)),
        ),
        line_statement(taking) == Ok::<Option<StatementView>, Error>(
            Some(StatementView::In(pattern)),
        ),
        space.wf(),
        space.can_register(),
        space.read(pattern) is None,
        tuple_matches(pattern, t),
        space.first_waiter(t) is None,
    ensures
        ({
            let (blocked, waiting) = data_spec(h, channel, one_return(), session, space);
            let arrived = waiting.insert(t);
            let woken = data_spec(
                HView { line: Seq::empty(), op: blocked.op, closed: false },
                channel,
                input,
                session,
                arrived,
            );
            let (answered, collected) = poll_spec(woken.0, woken.1);
            let answer = text_output(channel, tuple_text(t));
            let ready = text_output(channel, prompt());
            let (taken, after) = data_spec(
                HView { line: taking, op: None, closed: false },
                channel,
                one_return(),
                session.push(answer).push(ready),
                collected,
            );
            &&& blocked.session == session
            &&& blocked.op is Some
            &&& answered == Ok::<(HView, Seq<OutputView>), ()>(
                (HView { line: Seq::empty(), op: None, closed: false }, session.push(answer).push(ready)),
            )
            &&& collected.resident == space.resident.push(t)
            &&& taken.session == session.push(answer).push(ready).push(answer).push(ready)
            &&& taken.op is None
            &&& after == collected.take(pattern)
        }),
{
    let st = StatementView::Rd(pattern);
    lemma_unmatched_query_blocks(h, channel, session, space, st);
    lemma_blocked_rd_keeps_tuple(space, pattern, t);
    let (blocked, waiting) = data_spec(h, channel, one_return(), session, space);
    let arrived = waiting.insert(t);
    let held = HView { line: Seq::<u8>::empty(), op: blocked.op, closed: false };
    lemma_resolved_operation_is_answered(held, channel, input, session, arrived);
    let woken = data_spec(held, channel, input, session, arrived);
    let collected = poll_spec(woken.0, woken.1).1;
    lemma_matched_query_is_answered(
        HView { line: taking, op: None, closed: false },
        channel,
        session.push(text_output(channel, tuple_text(t))).push(text_output(channel, prompt())),
        collected,
        StatementView::In(pattern),
        t,
    );
}

} // verus!
