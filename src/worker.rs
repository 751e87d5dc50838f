//! A worker's handling of readable data on one session: parse every complete
//! request in the inbound buffer, execute it, and append its reply.

use vstd::prelude::*;
use crate::protocol::{Execute, Parse, ParseError};
use crate::request::{parse_request_spec, RequestParser, RequestView};
use crate::response::{response_wire, Response};
use crate::seg::Seg;
use crate::session::Session;
use crate::request::Command;
use crate::seg::{as_set_result, incr_as_set_result, IncrResult, StoreResult};
use crate::storage::{executed, incr_outcome, opt_view, store_outcome, Storage};

verus! {

/// The bytes of an optional reply; none for no reply.
pub open spec fn reply_bytes(o: Option<Seq<u8>>) -> Seq<u8> {
    match o {
        Some(b) => b,
        None => Seq::empty(),
    }
}

/// Running the complete requests at the front of `input`, in order, until
/// `rest` is left, at time `now`: the storage goes from `a` to `b` and the
/// replies, concatenated, are `out`.
pub open spec fn ran(a: Seg, b: Seg, now: u64, max_value: nat, input: Seq<u8>, rest: Seq<u8>, out: Seq<u8>) -> bool
    decreases input.len(),
{
    if input.len() <= rest.len() {
        input == rest && a == b && out == Seq::<u8>::empty()
    } else {
        match parse_request_spec(input, max_value) {
            Ok((q, n)) => if 0 < n <= input.len() {
                exists|mid: Seg, o: Option<Seq<u8>>|
                    #[trigger] executed(a, mid, now, q, o)
                    && out.len() >= reply_bytes(o).len()
                    && out.subrange(0, reply_bytes(o).len() as int) == reply_bytes(o)
                    && ran(mid, b, now, max_value, input.subrange(n as int, input.len() as int), rest,
                        out.subrange(reply_bytes(o).len() as int, out.len() as int))
            } else {
                false
            },
            Err(_) => false,
        }
    }
}

/// One more request run after a run keeps it a run.
proof fn lemma_ran_extend(
    a: Seg,
    b: Seg,
    c: Seg,
    now: u64,
    max_value: nat,
    input: Seq<u8>,
    rest: Seq<u8>,
    out: Seq<u8>,
    q: RequestView,
    n: nat,
    o: Option<Seq<u8>>,
)
    requires
        ran(a, b, now, max_value, input, rest, out),
        parse_request_spec(rest, max_value) == Ok::<(RequestView, nat), ParseError>((q, n)),
        0 < n <= rest.len(),
        executed(b, c, now, q, o),
    ensures
        ran(a, c, now, max_value, input, rest.subrange(n as int, rest.len() as int), out + reply_bytes(o)),
    decreases input.len(),
{
    let o2 = reply_bytes(o);
    let rest2 = rest.subrange(n as int, rest.len() as int);
    if input.len() <= rest.len() {
        assert(out + o2 =~= o2);
        assert(o2.subrange(0, o2.len() as int) =~= o2);
        assert(o2.subrange(o2.len() as int, o2.len() as int) =~= Seq::<u8>::empty());
        assert(ran(c, c, now, max_value, rest2, rest2, Seq::<u8>::empty()));
        assert(ran(a, c, now, max_value, input, rest2, out + o2));
    } else {
        let (q0, n0) = parse_request_spec(input, max_value)->Ok_0;
        let tail = input.subrange(n0 as int, input.len() as int);
        let (mid, o1) = choose|mid: Seg, o1: Option<Seq<u8>>|
            #[trigger] executed(a, mid, now, q0, o1)
            && out.len() >= reply_bytes(o1).len()
            && out.subrange(0, reply_bytes(o1).len() as int) == reply_bytes(o1)
            && ran(mid, b, now, max_value, tail, rest, out.subrange(reply_bytes(o1).len() as int, out.len() as int));
        let ob = reply_bytes(o1);
        let out_tail = out.subrange(ob.len() as int, out.len() as int);
        lemma_ran_extend(mid, b, c, now, max_value, tail, rest, out_tail, q, n, o);
        assert((out + o2).subrange(0, ob.len() as int) =~= ob);
        assert((out + o2).subrange(ob.len() as int, (out + o2).len() as int) =~= out_tail + o2);
        assert(executed(a, mid, now, q0, o1));
    }
}

/// No request among the complete ones at the front of `input`, up to
/// `rest`, writes `key` or flushes the storage.
pub open spec fn untouched(input: Seq<u8>, rest: Seq<u8>, max_value: nat, key: Seq<u8>) -> bool
    decreases input.len(),
{
    if input.len() <= rest.len() {
        true
    } else {
        match parse_request_spec(input, max_value) {
            Ok((q, n)) => if 0 < n <= input.len() {
                &&& q.command != Command::FlushAll
                &&& (q.command == Command::Get || q.command == Command::Gets || q.key != key)
                &&& untouched(input.subrange(n as int, input.len() as int), rest, max_value, key)
            } else {
                true
            },
            Err(_) => true,
        }
    }
}

/// A request that does not write `key` and is no flush keeps what `key` holds.
proof fn lemma_step_keeps_key(a: Seg, b: Seg, now: u64, q: RequestView, o: Option<Seq<u8>>, key: Seq<u8>)
    requires
        executed(a, b, now, q, o),
        q.command != Command::FlushAll,
        q.command == Command::Get || q.command == Command::Gets || q.key != key,
    ensures
        forall|t: u64| #[trigger] b.lookup(key, t) == a.lookup(key, t),
{
    assert forall|t: u64| #[trigger] b.lookup(key, t) == a.lookup(key, t) by {
        match q.command {
            Command::Get => {},
            Command::Gets => {},
            Command::Delete => {},
            Command::FlushAll => {},
            Command::Incr | Command::Decr => {
                let ir = choose|ir: IncrResult|
                    incr_outcome(a, b, q.command == Command::Incr, q.key, q.delta, now, ir)
                    && o == crate::storage::reply(crate::storage::incr_response(ir), q.noreply);
                if incr_as_set_result(ir) is Ok {
                } else {
                }
            },
            _ => {
                let sr = choose|sr: StoreResult|
                    store_outcome(a, b, q.command, q.key, q.value, q.flags,
                        crate::seg::expiry_of(now, q.ttl), now, q.delta, sr)
                    && o == crate::storage::reply(crate::storage::store_response(sr), q.noreply);
                if as_set_result(sr) is Ok {
                } else {
                }
            },
        }
    }
}

/// A key that no request of a run writes, and a run without a flush, keeps
/// exactly what the key held before the run, at every time.
pub proof fn lemma_untouched_key_kept(
    a: Seg,
    b: Seg,
    now: u64,
    max_value: nat,
    input: Seq<u8>,
    rest: Seq<u8>,
    out: Seq<u8>,
    key: Seq<u8>,
)
    requires
        ran(a, b, now, max_value, input, rest, out),
        untouched(input, rest, max_value, key),
    ensures
        forall|t: u64| #[trigger] b.lookup(key, t) == a.lookup(key, t),
    decreases input.len(),
{
    if input.len() > rest.len() {
        let (q0, n0) = parse_request_spec(input, max_value)->Ok_0;
        let tail = input.subrange(n0 as int, input.len() as int);
        let (mid, o1) = choose|mid: Seg, o1: Option<Seq<u8>>|
            #[trigger] executed(a, mid, now, q0, o1)
            && out.len() >= reply_bytes(o1).len()
            && out.subrange(0, reply_bytes(o1).len() as int) == reply_bytes(o1)
            && ran(mid, b, now, max_value, tail, rest, out.subrange(reply_bytes(o1).len() as int, out.len() as int));
        lemma_step_keeps_key(a, mid, now, q0, o1, key);
        lemma_untouched_key_kept(mid, b, now, max_value, tail, rest,
            out.subrange(reply_bytes(o1).len() as int, out.len() as int), key);
    }
}

/// Answers every complete request at the front of the session's inbound
/// buffer, in order, appending each reply to the outbound buffer. Returns
/// false when a request can never parse: the session then gets an `ERROR`
/// line and must be closed. Otherwise the remaining inbound bytes are an
/// incomplete request.
pub fn handle_data(session: &mut Session, storage: &mut Storage, parser: &RequestParser) -> (open: bool)
    requires
        old(session).wf(),
        old(storage).wf(),
    ensures
        final(session).wf(),
        final(storage).wf(),
        final(storage).now_spec() == old(storage).now_spec(),
        final(session)@.max_buffer_size == old(session)@.max_buffer_size,
        final(session)@.sent == old(session)@.sent,
        open ==> parse_request_spec(final(session)@.inbound, parser.max_value_spec()) == Err::<(RequestView, nat), ParseError>(
            ParseError::Incomplete,
        ),
        !open ==> (parse_request_spec(final(session)@.inbound, parser.max_value_spec()) matches Err(e) && e != ParseError::Incomplete),
        exists|out: Seq<u8>|
            #[trigger] ran(old(storage).seg_spec(), final(storage).seg_spec(), old(storage).now_spec(), parser.max_value_spec(),
                old(session)@.inbound, final(session)@.inbound, out)
            && final(session)@.outbound == old(session)@.outbound + out + if open {
                Seq::<u8>::empty()
            } else {
                response_wire(Response::Error)
            },
{
    let ghost s0 = session@;
    let ghost seg0 = storage.seg_spec();
    let ghost mut acc: Seq<u8> = Seq::empty();
    assert(s0.outbound + acc =~= s0.outbound);
    loop
        invariant
            s0 == old(session)@,
            seg0 == old(storage).seg_spec(),
            session.wf(),
            storage.wf(),
            storage.now_spec() == old(storage).now_spec(),
            session@.max_buffer_size == s0.max_buffer_size,
            session@.sent == s0.sent,
            session@.outbound == s0.outbound + acc,
            ran(seg0, storage.seg_spec(), storage.now_spec(), parser.max_value_spec(), s0.inbound, session@.inbound, acc),
        decreases session@.inbound.len(),
    {
        let ghost before = session@;
        let ghost seg1 = storage.seg_spec();
        match parser.parse(session.buffer()) {
            Ok(ok) => {
                let n = ok.consumed();
                let ghost q = ok.message_spec()@;
                session.consume(n);
                let req = ok.into_inner();
                let r = storage.execute(req);
                proof {
                    lemma_ran_extend(seg0, seg1, storage.seg_spec(), storage.now_spec(), parser.max_value_spec(), s0.inbound,
                        before.inbound, acc, q, n as nat, opt_view(r));
                }
                match r {
                    Some(reply) => {
                        session.write(reply.as_slice());
                    },
                    None => {},
                }
                proof {
                    acc = acc + reply_bytes(opt_view(r));
                    assert(session@.outbound =~= s0.outbound + acc);
                }
            },
            Err(ParseError::Incomplete) => {
                assert(session@.outbound + Seq::<u8>::empty() =~= session@.outbound);
                return true;
            },
            Err(_) => {
                let error = Response::Error.to_bytes();
                session.write(error.as_slice());
                return false;
            },
        }
    }
}

} // verus!
