use pelikan::{
    BackendResult, EntryValue, Listener, Parse, ParseError, ParseOk, Response, ResponseParser,
    Session, SessionError,
};
use pelikan::{BoundedQueue, SessionTable, TableError};
use pelikan::{Handshake, HandshakeAction};
use pelikan::{AcceptAction, Compose, Dispatch, EventStep, Signal, TlsAccept};
use pelikan::{
    dispatch, klog_set, klog_ttl, max_buffer_size, push_decimal, session_event_steps, set_reply,
    set_request, SetRejected, DEFAULT_BUFFER_SIZE, LISTENER_TOKEN, WAKER_TOKEN,
};

#[test]
fn parse_ok_keeps_message_and_length() {
    let ok = ParseOk::new("get", 5);
    assert_eq!(ok.consumed(), 5);
    assert_eq!(ok.into_inner(), "get");
}

#[test]
fn session_write_then_flush_keeps_order() {
    let mut s = Session::with_capacity(64);
    s.write(b"STORED\r\n");
    s.write(b"END\r\n");
    assert_eq!(s.pending(), b"STORED\r\nEND\r\n");
    assert_eq!(s.flush(3), 10);
    assert_eq!(s.pending(), b"RED\r\nEND\r\n");
    assert_eq!(s.flush(10), 0);
    assert_eq!(s.pending(), b"");
}

#[test]
fn session_fill_and_consume() {
    let mut s = Session::with_capacity(8);
    assert_eq!(s.fill(b"get "), Ok(4));
    assert_eq!(s.fill(b"foo\r"), Ok(4));
    assert_eq!(s.buffer(), b"get foo\r");
    assert_eq!(s.fill(b"\n"), Err(SessionError::BufferFull));
    assert_eq!(s.buffer(), b"get foo\r");
    s.consume(4);
    assert_eq!(s.buffer(), b"foo\r");
    assert_eq!(s.fill(b"\n"), Ok(1));
    assert_eq!(s.buffer(), b"foo\r\n");
    assert_eq!(s.max_buffer_size(), 8);
}

#[test]
fn session_fill_empty_read_is_hangup() {
    let mut s = Session::with_capacity(8);
    assert_eq!(s.fill(b""), Err(SessionError::Closed));
}

#[test]
fn decimal_text() {
    let mut v = Vec::new();
    push_decimal(&mut v, 0);
    assert_eq!(v, b"0");
    let mut v = b"n=".to_vec();
    push_decimal(&mut v, 18446744073709551615);
    assert_eq!(v, b"n=18446744073709551615".to_vec());
    let mut v = Vec::new();
    push_decimal(&mut v, 1200);
    assert_eq!(v, b"1200");
}

#[test]
fn response_wire_forms() {
    assert_eq!(Response::Stored.to_bytes(), b"STORED\r\n");
    assert_eq!(Response::NotStored.to_bytes(), b"NOT_STORED\r\n");
    assert_eq!(Response::Exists.to_bytes(), b"EXISTS\r\n");
    assert_eq!(Response::NotFound.to_bytes(), b"NOT_FOUND\r\n");
    assert_eq!(Response::Deleted.to_bytes(), b"DELETED\r\n");
    assert_eq!(Response::End.to_bytes(), b"END\r\n");
    assert_eq!(Response::Error.to_bytes(), b"ERROR\r\n");
    assert_eq!(Response::Numeric(3).to_bytes(), b"3\r\n");
}

#[test]
fn compose_appends_to_session() {
    let mut s = Session::with_capacity(16);
    Response::Stored.compose(&mut s);
    Response::Numeric(42).compose(&mut s);
    assert_eq!(s.pending(), b"STORED\r\n42\r\n");
}

#[test]
fn parse_prefixes_are_incomplete() {
    let p = ResponseParser::new();
    let wire = b"NOT_FOUND\r\nEND\r\n";
    for k in 0..11 {
        assert_eq!(p.parse(&wire[..k]).err(), Some(ParseError::Incomplete));
    }
    for k in 11..=wire.len() {
        let ok = p.parse(&wire[..k]).unwrap();
        assert_eq!(ok.consumed(), 11);
        assert_eq!(ok.into_inner(), Response::NotFound);
    }
}

#[test]
fn parse_then_compose_round_trip() {
    let p = ResponseParser::new();
    for wire in [
        &b"STORED\r\n"[..],
        b"NOT_STORED\r\n",
        b"EXISTS\r\n",
        b"NOT_FOUND\r\n",
        b"DELETED\r\n",
        b"END\r\n",
        b"ERROR\r\n",
        b"0\r\n",
        b"18446744073709551615\r\n",
    ] {
        let ok = p.parse(wire).unwrap();
        assert_eq!(ok.consumed(), wire.len());
        assert_eq!(ok.into_inner().to_bytes(), wire.to_vec());
    }
}

#[test]
fn parse_rejects_bad_lines() {
    let p = ResponseParser::new();
    assert_eq!(p.parse(b"007\r\n").err(), Some(ParseError::Invalid));
    assert_eq!(p.parse(b"18446744073709551616\r\n").err(), Some(ParseError::Invalid));
    assert_eq!(p.parse(b"stored\r\n").err(), Some(ParseError::Invalid));
    assert_eq!(p.parse(b"\r\n").err(), Some(ParseError::Invalid));
    assert_eq!(p.parse(b"12a\r\n").err(), Some(ParseError::Invalid));
}

#[test]
fn plain_accept_hands_off() {
    let mut l = Listener::new(false);
    assert_eq!(l.do_accept(TlsAccept::Failed), AcceptAction::HandoffPlain);
    assert_eq!(l.accept_errors(), 0);
}

#[test]
fn tls_accept_outcomes() {
    let mut l = Listener::new(true);
    assert!(l.tls());
    assert_eq!(l.do_accept(TlsAccept::Established), AcceptAction::HandoffTls);
    assert_eq!(l.do_accept(TlsAccept::WouldBlock), AcceptAction::RegisterHandshake);
    assert_eq!(l.accept_errors(), 0);
    assert_eq!(l.do_accept(TlsAccept::Failed), AcceptAction::Drop);
    assert_eq!(l.accept_errors(), 1);
}

#[test]
fn burst_drops_are_counted_exactly() {
    let mut l = Listener::new(false);
    let mut queue = BoundedQueue::new(3);
    let mut drops = 0;
    for conn in 0..10 {
        assert_eq!(l.do_accept(TlsAccept::Established), AcceptAction::HandoffPlain);
        let delivered = queue.try_send(conn).is_ok();
        if !delivered {
            drops += 1;
        }
        l.record_handoff(delivered);
    }
    assert_eq!(drops, 7);
    assert_eq!(l.accept_errors(), 7);
    assert_eq!(queue.try_recv(), Some(0));
    assert_eq!(queue.try_recv(), Some(1));
    assert_eq!(queue.try_recv(), Some(2));
    assert_eq!(queue.try_recv(), None);
}

#[test]
fn shutdown_signal_stops_listener() {
    let mut l = Listener::new(false);
    assert!(!l.handle_signals(&[Signal::FlushAll]));
    assert!(!l.stopped());
    assert!(l.handle_signals(&[Signal::FlushAll, Signal::Shutdown, Signal::FlushAll]));
    assert!(l.stopped());
}

#[test]
fn event_dispatch() {
    assert_eq!(dispatch(LISTENER_TOKEN), Dispatch::Accept);
    assert_eq!(dispatch(WAKER_TOKEN), Dispatch::Signals);
    assert_eq!(dispatch(7), Dispatch::Session);
}

#[test]
fn event_steps_write_before_read() {
    assert_eq!(
        session_event_steps(true, true, true),
        vec![EventStep::HandleError, EventStep::Write, EventStep::Read, EventStep::Handshake]
    );
    assert_eq!(session_event_steps(false, false, true), vec![EventStep::Read, EventStep::Handshake]);
    assert_eq!(session_event_steps(false, false, false), vec![EventStep::Handshake]);
}

#[test]
fn buffer_size_follows_segment_size() {
    assert_eq!(max_buffer_size(1048576), 2097152);
    assert_eq!(max_buffer_size(1024), DEFAULT_BUFFER_SIZE);
    assert_eq!(max_buffer_size(8192), 16384);
}

#[test]
fn set_request_checks_key_then_value() {
    assert_eq!(
        set_request(&[0xff, 0x41], Some(EntryValue::U64(1)), None).err(),
        Some(SetRejected::InvalidKey)
    );
    assert_eq!(set_request(b"foo", None, None).err(), Some(SetRejected::MissingValue));
    assert_eq!(
        set_request(b"foo", Some(EntryValue::Bytes(vec![0xc3, 0x28])), None).err(),
        Some(SetRejected::InvalidValue)
    );
    let req = set_request(b"foo", Some(EntryValue::Bytes(b"hello".to_vec())), Some(0)).unwrap();
    assert_eq!(req.key, b"foo");
    assert_eq!(req.value, b"hello");
    assert_eq!(req.ttl, None);
    let req = set_request(b"n", Some(EntryValue::U64(3071)), Some(30)).unwrap();
    assert_eq!(req.value, b"3071");
    assert_eq!(req.ttl, Some(30));
}

#[test]
fn set_replies() {
    let r = set_reply(BackendResult::Stored, false);
    assert_eq!(r.response, b"STORED\r\n");
    assert_eq!(r.log, Some((5, 8)));
    let r = set_reply(BackendResult::Stored, true);
    assert!(r.response.is_empty());
    assert_eq!(r.log, Some((5, 0)));
    let r = set_reply(BackendResult::NotStored, false);
    assert_eq!(r.response, b"NOT_STORED\r\n");
    assert_eq!(r.log, Some((9, 12)));
    let r = set_reply(BackendResult::NotStored, true);
    assert!(r.response.is_empty());
    assert_eq!(r.log, Some((9, 0)));
    for failed in [BackendResult::LimitExceeded, BackendResult::Failed, BackendResult::Timeout] {
        let r = set_reply(failed, true);
        assert_eq!(r.response, b"NOT_STORED\r\n");
        assert_eq!(r.log, None);
    }
}

#[test]
fn set_log_line() {
    let line = klog_set("foo", 0, 60, 5, 5, 8);
    assert_eq!(line, b"\"set foo 0 60 5\" 5 8".to_vec());
    assert_eq!(klog_ttl(None), 0);
    assert_eq!(klog_ttl(Some(4294967296 + 7)), 7);
}

#[test]
fn session_table_tokens() {
    let mut t: SessionTable<&str> = SessionTable::new();
    let a = t.add_session("a").unwrap();
    let b = t.add_session("b").unwrap();
    assert_ne!(a, b);
    assert_ne!(a, LISTENER_TOKEN);
    assert_ne!(b, WAKER_TOKEN);
    assert_eq!(t.get_session(a), Ok(&"a"));
    assert_eq!(t.remove_session(a), Ok("a"));
    assert_eq!(t.get_session(a), Err(TableError::NotFound));
    assert_eq!(t.remove_session(a), Err(TableError::NotFound));
    assert_eq!(t.get_session(b), Ok(&"b"));
    let c = t.add_session("c").unwrap();
    assert_eq!(c, a);
    assert_eq!(t.get_session(LISTENER_TOKEN), Err(TableError::NotFound));
}

#[test]
fn bounded_queue_is_fifo_and_refuses_when_full() {
    let mut q = BoundedQueue::new(2);
    assert_eq!(q.try_send(1), Ok(()));
    assert_eq!(q.try_send(2), Ok(()));
    assert_eq!(q.try_send(3), Err(3));
    assert_eq!(q.len(), 2);
    assert_eq!(q.try_recv(), Some(1));
    assert_eq!(q.try_send(4), Ok(()));
    assert_eq!(q.try_recv(), Some(2));
    assert_eq!(q.try_recv(), Some(4));
    assert_eq!(q.try_recv(), None);
}

#[test]
fn handshake_outcomes() {
    let mut l = Listener::new(true);
    assert_eq!(l.after_handshake(Handshake::WouldBlock), HandshakeAction::Keep);
    assert_eq!(l.after_handshake(Handshake::Complete), HandshakeAction::HandOff);
    assert_eq!(l.accept_errors(), 0);
    assert_eq!(l.after_handshake(Handshake::Fatal), HandshakeAction::Drop);
    assert_eq!(l.accept_errors(), 1);
}
