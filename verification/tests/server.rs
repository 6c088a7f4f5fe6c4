use sshtup::error::{Error, ParseError};
use sshtup::server::{Auth, ChannelId, HFuture, Output, Session, SpaceOp, State, H};
use sshtup::space::{QueryHandle, Space};
use sshtup::store::{Store, StoreError};
use sshtup::tuple::{Tuple, E};

const CH: ChannelId = ChannelId(3);

fn text(s: &str) -> Output {
    Output::Data(CH, s.as_bytes().to_vec())
}

fn prompt() -> Output {
    text("\r\n> ")
}

fn echo(s: &str) -> Vec<Output> {
    s.bytes().map(|b| Output::Data(CH, vec![b])).collect()
}

/// Sends the input and wakes the connection once, as a transport does.
fn send(h: H, input: &[u8], space: &mut Space) -> (H, Vec<Output>) {
    let (h, session) = h.data(CH, input, Session::new(), space).poll(space).unwrap();
    (h, session.into_outputs())
}

fn typed(line: &str, answer: Vec<Output>) -> Vec<Output> {
    let mut all = echo(line);
    all.extend(answer);
    all
}

#[test]
fn a_session_of_out_and_in() {
    let mut space = Space::new(Store::new());
    let h = H::new();
    let (h, written) = send(h, b"out [a,1]\r", &mut space);
    assert_eq!(written, typed("out [a,1]", vec![text("ok"), prompt()]));
    assert!(!h.is_pending());
    let (h, written) = send(h, b"in [a,_]\r", &mut space);
    assert_eq!(written, typed("in [a,_]", vec![text("[a, 1]"), prompt()]));
    assert!(!h.is_pending());
    let (h, written) = send(h, b"in [a,_]\r", &mut space);
    assert_eq!(written, typed("in [a,_]", vec![]));
    assert!(h.is_pending());
    let (h, written) = send(h, b"", &mut space);
    assert_eq!(written, vec![]);
    assert!(h.is_pending());
    let (other, written) = send(H::new(), b"out [b,2]\rout [a,2]\r", &mut space);
    assert!(!other.is_pending());
    let mut expected = typed("out [b,2]", vec![text("ok"), prompt()]);
    expected.extend(typed("out [a,2]", vec![text("ok"), prompt()]));
    assert_eq!(written, expected);
    let (h, written) = send(h, b"", &mut space);
    assert_eq!(written, vec![text("[a, 2]"), prompt()]);
    assert!(!h.is_pending());
    assert_eq!(space.len(), 1);
}

#[test]
fn input_is_dropped_while_an_operation_is_pending() {
    let mut space = Space::new(Store::new());
    let (h, _) = send(H::new(), b"rd [job,_]\r", &mut space);
    assert!(h.is_pending());
    let (h, written) = send(h, b"out [job,1]\r", &mut space);
    assert_eq!(written, vec![]);
    assert!(h.is_pending());
    assert_eq!(space.len(), 0);
    assert_eq!(space.waiting(), 1);
    let (h, written) = send(h, b"\x04", &mut space);
    assert_eq!(written, vec![]);
    assert!(h.is_pending());
    assert!(!h.is_closed());
    send(H::new(), b"out [job,7]\r", &mut space);
    let (h, written) = send(h, b"in [job,_]\r", &mut space);
    assert_eq!(written, vec![text("[job, 7]"), prompt()]);
    assert!(!h.is_pending());
    assert_eq!(space.len(), 1);
    let (_, written) = send(h, b"in [job,_]\r", &mut space);
    assert_eq!(written, typed("in [job,_]", vec![text("[job, 7]"), prompt()]));
    assert_eq!(space.len(), 0);
}

#[test]
fn the_rest_of_a_chunk_is_dropped_once_a_query_blocks() {
    let mut space = Space::new(Store::new());
    let (h, written) = send(H::new(), b"in [x]\rout [x]\r", &mut space);
    assert_eq!(written, typed("in [x]", vec![]));
    assert!(h.is_pending());
    assert_eq!(space.len(), 0);
}

#[test]
fn bytes_are_echoed_and_buffered() {
    let mut space = Space::new(Store::new());
    let (h, written) = send(H::new(), b"ou", &mut space);
    assert_eq!(written, echo("ou"));
    let (h, written) = send(h, b"t [", &mut space);
    assert_eq!(written, echo("t ["));
    let (h, written) = send(h, b"1]", &mut space);
    assert_eq!(written, echo("1]"));
    let (_, written) = send(h, b"\r", &mut space);
    assert_eq!(written, vec![text("ok"), prompt()]);
    assert_eq!(space.len(), 1);
}

#[test]
fn an_empty_line_gets_a_prompt() {
    let mut space = Space::new(Store::new());
    let (mut h, written) = send(H::new(), b"\r", &mut space);
    assert_eq!(written, vec![Output::Data(CH, b"\r\n> ".to_vec())]);
    assert_eq!(h.state(), State::Idle);
    assert_eq!(h.readline(), Ok(None));
    assert_eq!((space.len(), space.waiting()), (0, 0));
    let (_, written) = send(h, b"\r\r", &mut space);
    assert_eq!(written, vec![prompt(), prompt()]);
}

#[test]
fn errors_are_reported_and_the_connection_goes_on() {
    let mut space = Space::new(Store::new());
    let parse = "Error: parse error\nCaused by: expected in, rd or out, and a tuple in brackets\n";
    let (h, written) = send(H::new(), b"nope [1,2,3]\r", &mut space);
    assert_eq!(written, typed("nope [1,2,3]", vec![text(parse), prompt()]));
    assert!(!h.is_pending());
    let (h, written) = send(h, b"in [\r", &mut space);
    assert_eq!(written, typed("in [", vec![text(parse), prompt()]));
    let decode = "Error: invalid utf8\nCaused by: the line is not valid UTF-8\n";
    let (h, written) = send(h, b"out [\"\xff\"]\r", &mut space);
    let mut expected: Vec<Output> = b"out [\"\xff\"]".iter().map(|b| Output::Data(CH, vec![*b])).collect();
    expected.extend(vec![text(decode), prompt()]);
    assert_eq!(written, expected);
    let (_, written) = send(h, b"out [ok]\r", &mut space);
    assert_eq!(written, typed("out [ok]", vec![text("ok"), prompt()]));
    assert_eq!(space.len(), 1);
}

#[test]
fn text_beyond_ascii_is_decoded() {
    let mut space = Space::new(Store::new());
    let line = "out [\"grüße, 世界\"]";
    let (h, _) = send(H::new(), format!("{}\r", line).as_bytes(), &mut space);
    let (_, written) = send(h, b"in [_]\r", &mut space);
    assert_eq!(written, typed("in [_]", vec![text("[\"grüße, 世界\"]"), prompt()]));
}

#[test]
fn end_of_transmission_closes_the_channel() {
    let mut space = Space::new(Store::new());
    let (h, written) = send(H::new(), b"ab\x04cd\r", &mut space);
    let mut expected = echo("ab");
    expected.push(Output::Eof(CH));
    expected.push(Output::Close(CH));
    assert_eq!(written, expected);
    assert!(h.is_closed());
    let (h, written) = send(h, b"out [1]\r", &mut space);
    assert_eq!(written, vec![]);
    assert!(h.is_closed());
    assert_eq!(space.len(), 0);
}

#[test]
fn a_new_channel_is_greeted() {
    let mut space = Space::new(Store::new());
    let (h, session) = H::new()
        .channel_open_session(CH, Session::new())
        .poll(&mut space)
        .unwrap();
    assert_eq!(
        session.into_outputs(),
        vec![text("sshtupd: welcome to tuplespace\r\n"), prompt()]
    );
    assert!(!h.is_pending());
    assert!(!h.is_closed());
}

#[test]
fn a_pending_operation_needs_a_channel() {
    let mut space = Space::new(Store::new());
    let (h, _) = send(H::new(), b"in [gone]\r", &mut space);
    assert!(h.is_pending());
    assert_eq!(space.waiting(), 1);
    let woken = h.finished(Session::new());
    assert!(woken.poll(&mut space).is_err());
    assert_eq!(space.waiting(), 0);
    let idle = H::new().finished(Session::new());
    assert!(idle.poll(&mut space).is_ok());
}

#[test]
fn any_key_is_accepted() {
    let (h, auth) = H::new().auth_publickey("anyone", b"any key");
    assert_eq!(auth, Auth::Accept);
    assert!(!h.is_pending());
    assert_ne!(Auth::Accept, Auth::Reject);
}

#[test]
fn lines_are_read_from_the_buffer() {
    let mut space = Space::new(Store::new());
    let mut h = H::new();
    assert_eq!(h.readline(), Ok(None));
    let (mut h, _) = send(h, b"rd [1.5]", &mut space);
    let st = h.readline().unwrap().unwrap();
    assert_eq!(st, sshtup::grammar::statement("rd [1.5]").unwrap());
    assert_eq!(h.readline(), Ok(None));
    let (mut h, _) = send(h, b"rd [1.5", &mut space);
    assert_eq!(h.readline(), Err(Error::Parse(ParseError)));
    let (mut h, _) = send(h, b"\xc3", &mut space);
    assert_eq!(h.readline(), Err(Error::Decode));
    assert_eq!(h.readline(), Ok(None));
}

#[test]
fn the_session_queues_in_order() {
    let mut s = Session::new();
    assert_eq!(s.len(), 0);
    s.data(CH, vec![1, 2]);
    s.eof(CH);
    s.close(ChannelId(9));
    H::write_string(&mut s, CH, "hi");
    H::write_tup(&mut s, CH, &Tuple::new(vec![E::I(1)]));
    H::write_error(&mut s, CH, Error::Store(StoreError::TicketsExhausted));
    H::write_prompt(&mut s, CH);
    assert_eq!(s.len(), 7);
    assert_eq!(
        s.into_outputs(),
        vec![
            Output::Data(CH, vec![1, 2]),
            Output::Eof(CH),
            Output::Close(ChannelId(9)),
            text("hi"),
            text("[1]"),
            text("Error: store error\nCaused by: the space cannot hold another waiting query\n"),
            prompt(),
        ]
    );
}

#[test]
fn operations_have_names() {
    let mut space = Space::new(Store::new());
    let q = SpaceOp::Query(space.in_(Tuple::new(vec![])));
    let o = SpaceOp::Out(space.out(Tuple::new(vec![])));
    assert_eq!(q.name(), "Query");
    assert_eq!(o.name(), "Out");
    let f = HFuture::new(H::new(), Some(o), Session::new(), Some(CH));
    let (h, session) = f.poll(&mut space).unwrap();
    assert_eq!(session.into_outputs(), vec![text("ok"), prompt()]);
    assert!(!h.is_pending());
    let f = HFuture::new(H::new(), Some(q), Session::new(), Some(CH));
    let (h, session) = f.poll(&mut space).unwrap();
    assert_eq!(session.into_outputs(), vec![text("[]"), prompt()]);
    assert!(!h.is_pending());
}

#[test]
fn errors_render_as_a_chain() {
    assert_eq!(Error::Decode.context(), "invalid utf8");
    assert_eq!(Error::Parse(ParseError).context(), "parse error");
    assert_eq!(Error::Store(StoreError::TicketsExhausted).context(), "store error");
    assert_eq!(Error::Decode.cause(), "the line is not valid UTF-8");
    assert_eq!(
        Error::Decode.display_chain(),
        "Error: invalid utf8\nCaused by: the line is not valid UTF-8\n"
    );
    assert_eq!(
        Error::Parse(ParseError).display_chain(),
        "Error: parse error\nCaused by: expected in, rd or out, and a tuple in brackets\n"
    );
}

#[test]
fn a_closed_channel_withdraws_its_query() {
    let mut space = Space::new(Store::new());
    let (h, _) = send(H::new(), b"in [late]\r", &mut space);
    assert!(h.is_pending());
    assert_eq!(space.waiting(), 1);
    let (h, session) = h
        .channel_close(CH, Session::new(), &mut space)
        .poll(&mut space)
        .unwrap();
    assert_eq!(session.into_outputs(), vec![]);
    assert!(h.is_closed());
    assert!(!h.is_pending());
    assert_eq!(space.waiting(), 0);
    send(H::new(), b"out [late]\r", &mut space);
    assert_eq!(space.len(), 1);
    let (h, written) = send(h, b"in [late]\r", &mut space);
    assert_eq!(written, vec![]);
    assert!(h.is_closed());
    assert_eq!(space.len(), 1);
}

#[test]
fn a_query_that_finds_nothing_reports_none() {
    let mut space = Space::new(Store::new());
    let f = HFuture::new(
        H::new(),
        Some(SpaceOp::Query(QueryHandle::Done(Ok(None)))),
        Session::new(),
        Some(CH),
    );
    let (h, session) = f.poll(&mut space).unwrap();
    assert_eq!(session.into_outputs(), vec![text("none"), prompt()]);
    assert!(!h.is_pending());
    let f = HFuture::new(
        H::new(),
        Some(SpaceOp::Query(QueryHandle::Done(Err(StoreError::TicketsExhausted)))),
        Session::new(),
        Some(CH),
    );
    let (_, session) = f.poll(&mut space).unwrap();
    assert_eq!(
        session.into_outputs(),
        vec![
            text("Error: store error\nCaused by: the space cannot hold another waiting query\n"),
            prompt()
        ]
    );
}

#[test]
fn a_store_failure_is_reported() {
    let mut space = Space::new(Store::with_first_ticket(u64::MAX));
    let (h, written) = send(H::new(), b"in [x]\r", &mut space);
    assert_eq!(
        written,
        typed(
            "in [x]",
            vec![
                text("Error: store error\nCaused by: the space cannot hold another waiting query\n"),
                prompt()
            ]
        )
    );
    assert!(!h.is_pending());
    assert_eq!(space.waiting(), 0);
    let (_, written) = send(h, b"out [x]\r", &mut space);
    assert_eq!(written, typed("out [x]", vec![text("ok"), prompt()]));
}

#[test]
fn a_connection_knows_its_state() {
    let mut space = Space::new(Store::new());
    let h = H::new();
    assert_eq!(h.state(), State::Idle);
    let (h, _) = send(h, b"rd [x]\r", &mut space);
    assert_eq!(h.state(), State::AwaitingQuery);
    send(H::new(), b"out [x]\r", &mut space);
    let (h, _) = send(h, b"", &mut space);
    assert_eq!(h.state(), State::Idle);
    let (h, _) = send(h, b"\x04", &mut space);
    assert_eq!(h.state(), State::Closed);
    let pending = space.out(Tuple::new(vec![]));
    let f = HFuture::new(H::new(), Some(SpaceOp::Out(pending)), Session::new(), None);
    assert!(f.poll(&mut space).is_err());
}

#[test]
fn line_feeds_between_lines_are_blanks() {
    let mut space = Space::new(Store::new());
    let (h, written) = send(H::new(), b"out [1]\r\nin [_]\r", &mut space);
    let mut expected = typed("out [1]", vec![text("ok"), prompt()]);
    expected.extend(typed("\nin [_]", vec![text("[1]"), prompt()]));
    assert_eq!(written, expected);
    assert!(!h.is_pending());
    assert_eq!(space.len(), 0);
}

#[test]
fn a_query_never_finds_a_tuple_of_another_arity() {
    let mut space = Space::new(Store::new());
    send(H::new(), b"out [1,2,3]\rout [a]\r", &mut space);
    for line in ["in [_,_]", "rd [1,2]", "in []", "rd [_,_,_,_]", "in [[_]]"] {
        let (h, written) = send(H::new(), format!("{}\r", line).as_bytes(), &mut space);
        assert_eq!(written, echo(line), "{}", line);
        assert_eq!(h.state(), State::AwaitingQuery, "{}", line);
        let (h, written) = send(h, b"", &mut space);
        assert_eq!(written, vec![], "{}", line);
        assert!(h.is_pending(), "{}", line);
        assert_eq!(space.len(), 2, "{}", line);
    }
    assert_eq!(space.waiting(), 5);
}

#[test]
fn rd_then_in_write_the_same_tuple() {
    let mut space = Space::new(Store::new());
    let (h, _) = send(H::new(), b"out [t,1]\rout [t,2]\r", &mut space);
    let (h, written) = send(h, b"rd [t,_]\r", &mut space);
    assert_eq!(written, typed("rd [t,_]", vec![text("[t, 1]"), prompt()]));
    assert_eq!(space.len(), 2);
    let (h, written) = send(h, b"in [t,_]\r", &mut space);
    assert_eq!(written, typed("in [t,_]", vec![text("[t, 1]"), prompt()]));
    assert_eq!(space.len(), 1);
    assert!(!h.is_pending());
    let (waiting, written) = send(H::new(), b"rd [u,_]\r", &mut space);
    assert_eq!(written, echo("rd [u,_]"));
    send(h, b"out [u,9]\r", &mut space);
    let (waiting, written) = send(waiting, b"", &mut space);
    assert_eq!(written, vec![text("[u, 9]"), prompt()]);
    let (_, written) = send(waiting, b"in [u,_]\r", &mut space);
    assert_eq!(written, typed("in [u,_]", vec![text("[u, 9]"), prompt()]));
    assert_eq!(space.len(), 1);
}
