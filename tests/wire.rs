use pelikan::{
    handle_data, Command, Execute, Parse, ParseError, RequestParser, Seg, Session, Storage,
};

/// Feeds `input` into a session, parses and executes every complete request,
/// and returns what would go on the wire.
fn serve(storage: &mut Storage, input: &[u8]) -> Vec<u8> {
    let parser = RequestParser::new(1 << 20);
    let mut session = Session::with_capacity(4096);
    session.fill(input).unwrap();
    loop {
        match parser.parse(session.buffer()) {
            Ok(ok) => {
                let consumed = ok.consumed();
                session.consume(consumed);
                if let Some(reply) = storage.execute(ok.into_inner()) {
                    session.write(&reply);
                }
            }
            Err(ParseError::Incomplete) => break,
            Err(e) => panic!("parse error {:?}", e),
        }
    }
    session.pending().to_vec()
}

fn storage_at(now: u64) -> Storage {
    Storage::new(Seg::new(1 << 20, 8), now)
}

#[test]
fn set_then_get_on_the_wire() {
    let mut st = storage_at(1000);
    assert_eq!(serve(&mut st, b"set foo 0 0 5\r\nhello\r\n"), b"STORED\r\n");
    assert_eq!(serve(&mut st, b"get foo\r\n"), b"VALUE foo 0 5\r\nhello\r\nEND\r\n");
}

#[test]
fn noreply_set_expires_after_its_ttl() {
    let mut st = storage_at(1000);
    assert_eq!(serve(&mut st, b"set foo 0 1 5 noreply\r\nhello\r\n"), b"");
    st.tick(1002);
    assert_eq!(serve(&mut st, b"get foo\r\n"), b"END\r\n");
}

#[test]
fn second_add_is_not_stored() {
    let mut st = storage_at(0);
    assert_eq!(
        serve(&mut st, b"add foo 0 0 1\r\na\r\nadd foo 0 0 1\r\nb\r\n"),
        b"STORED\r\nNOT_STORED\r\n"
    );
}

#[test]
fn incr_missing_then_stored_number() {
    let mut st = storage_at(0);
    assert_eq!(serve(&mut st, b"incr n 1\r\n"), b"NOT_FOUND\r\n");
    assert_eq!(serve(&mut st, b"set n 0 0 1\r\n1\r\n"), b"STORED\r\n");
    assert_eq!(serve(&mut st, b"incr n 2\r\n"), b"3\r\n");
    assert_eq!(serve(&mut st, b"decr n 5\r\n"), b"0\r\n");
}

#[test]
fn pipelined_replies_keep_request_order() {
    let mut st = storage_at(0);
    assert_eq!(
        serve(&mut st, b"set a 1 0 1\r\nx\r\nget a\r\ndelete a\r\nget a\r\ndelete a\r\nflush_all\r\n"),
        b"STORED\r\nVALUE a 1 1\r\nx\r\nEND\r\nDELETED\r\nEND\r\nNOT_FOUND\r\nOK\r\n"
    );
}

#[test]
fn replace_and_non_numeric_incr() {
    let mut st = storage_at(0);
    assert_eq!(serve(&mut st, b"replace k 0 0 1\r\nv\r\n"), b"NOT_STORED\r\n");
    assert_eq!(serve(&mut st, b"set k 0 0 1\r\nv\r\n"), b"STORED\r\n");
    assert_eq!(serve(&mut st, b"replace k 0 0 2\r\nvv\r\n"), b"STORED\r\n");
    assert_eq!(serve(&mut st, b"incr k 1 noreply\r\n"), b"ERROR\r\n");
}

#[test]
fn request_prefixes_are_incomplete() {
    let p = RequestParser::new(1 << 20);
    let wire = b"set foo 0 0 5\r\nhello\r\n";
    for k in 0..wire.len() {
        assert_eq!(p.parse(&wire[..k]).err(), Some(ParseError::Incomplete), "prefix {}", k);
    }
    let ok = p.parse(wire).unwrap();
    assert_eq!(ok.consumed(), wire.len());
    let req = ok.into_inner();
    assert_eq!(req.command, Command::Store);
    assert_eq!(req.key, b"foo");
    assert_eq!(req.value, b"hello");
    assert!(!req.noreply);
}

#[test]
fn request_parse_errors() {
    let p = RequestParser::new(1 << 20);
    assert_eq!(p.parse(b"stats\r\n").err(), Some(ParseError::Unknown));
    assert_eq!(p.parse(b"get\r\n").err(), Some(ParseError::Invalid));
    assert_eq!(p.parse(b"get a b\r\n").err(), Some(ParseError::Invalid));
    assert_eq!(p.parse(b"set k 0 0 1\r\nab\r\n").err(), Some(ParseError::Invalid));
    assert_eq!(p.parse(b"set k 4294967296 0 1\r\na\r\n").err(), Some(ParseError::Invalid));
    assert_eq!(p.parse(b"incr k x\r\n").err(), Some(ParseError::Invalid));
    assert_eq!(p.parse(b"delete k later\r\n").err(), Some(ParseError::Invalid));
    let ok = p.parse(b"delete k noreply\r\nget k\r\n").unwrap();
    assert_eq!(ok.consumed(), 18);
    assert!(ok.into_inner().noreply);
}

#[test]
fn handle_data_answers_complete_requests_and_keeps_the_rest() {
    let mut st = storage_at(0);
    let parser = RequestParser::new(1 << 20);
    let mut s = Session::with_capacity(1024);
    s.fill(b"set k 0 0 2\r\nab\r\nget k\r\nget").unwrap();
    assert!(handle_data(&mut s, &mut st, &parser));
    assert_eq!(s.pending(), b"STORED\r\nVALUE k 0 2\r\nab\r\nEND\r\n");
    assert_eq!(s.buffer(), b"get");
    s.fill(b" k\r\nbogus\r\n").unwrap();
    assert!(!handle_data(&mut s, &mut st, &parser));
    assert_eq!(
        s.pending(),
        b"STORED\r\nVALUE k 0 2\r\nab\r\nEND\r\nVALUE k 0 2\r\nab\r\nEND\r\nERROR\r\n"
    );
}

#[test]
fn gets_then_cas_with_stale_and_fresh_tokens() {
    let mut st = storage_at(0);
    assert_eq!(serve(&mut st, b"set k 3 0 1\r\nv\r\n"), b"STORED\r\n");
    let reply = serve(&mut st, b"gets k\r\n");
    let text = String::from_utf8(reply).unwrap();
    assert!(text.starts_with("VALUE k 3 1 "));
    assert!(text.ends_with("\r\nv\r\nEND\r\n"));
    let token: u64 = text["VALUE k 3 1 ".len()..text.find("\r\n").unwrap()].parse().unwrap();
    let stale = token + 1000;
    assert_eq!(
        serve(&mut st, format!("cas k 0 0 2 {}\r\nv2\r\n", stale).as_bytes()),
        b"EXISTS\r\n"
    );
    assert_eq!(serve(&mut st, b"get k\r\n"), b"VALUE k 3 1\r\nv\r\nEND\r\n");
    assert_eq!(
        serve(&mut st, format!("cas k 0 0 2 {}\r\nv2\r\n", token).as_bytes()),
        b"STORED\r\n"
    );
    assert_eq!(serve(&mut st, b"get k\r\n"), b"VALUE k 0 2\r\nv2\r\nEND\r\n");
    assert_eq!(serve(&mut st, b"cas nope 0 0 1 1\r\nx\r\n"), b"NOT_FOUND\r\n");
    assert_eq!(serve(&mut st, b"cas k 0 0 1 1 noreply\r\nx\r\n"), b"");
}

#[test]
fn cas_request_fields() {
    let p = RequestParser::new(1 << 20);
    let ok = p.parse(b"cas k 5 10 2 77 noreply\r\nab\r\n").unwrap();
    assert_eq!(ok.consumed(), 29);
    let req = ok.into_inner();
    assert_eq!(req.command, Command::Cas);
    assert_eq!(req.flags, 5);
    assert_eq!(req.ttl, 10);
    assert_eq!(req.delta, 77);
    assert!(req.noreply);
    assert_eq!(p.parse(b"cas k 0 0 1\r\na\r\n").err(), Some(ParseError::Invalid));
    assert_eq!(p.parse(b"cas k 0 0 1 x\r\na\r\n").err(), Some(ParseError::Invalid));
}

#[test]
fn values_over_the_limit_are_invalid() {
    let p = RequestParser::new(4);
    assert!(p.parse(b"set k 0 0 4\r\nabcd\r\n").is_ok());
    assert_eq!(p.parse(b"set k 0 0 5\r\nabcde\r\n").err(), Some(ParseError::Invalid));
}
