//! The memcache text protocol's requests: a parser from bytes, and their
//! execution against the segment storage.

use vstd::prelude::*;
use crate::protocol::{Parse, ParseError, ParseOk};
use crate::response::{crlf_at, find_crlf, find_line_end, lemma_find_crlf_first, lemma_find_crlf_found};
use crate::text::{bytes_eq, canonical, digits_value, parse_decimal};

verus! {

/// Space-separated fields of a line, empty ones included.
pub open spec fn split(s: Seq<u8>) -> Seq<Seq<u8>>
    decreases s.len(),
{
    if s.len() == 0 {
        seq![Seq::<u8>::empty()]
    } else {
        let prev = split(s.drop_last());
        if s.last() == 32 {
            prev.push(Seq::<u8>::empty())
        } else {
            prev.update(prev.len() - 1, prev.last().push(s.last()))
        }
    }
}

proof fn lemma_split_nonempty(s: Seq<u8>)
    ensures
        split(s).len() >= 1,
    decreases s.len(),
{
    if s.len() > 0 {
        lemma_split_nonempty(s.drop_last());
    }
}

/// The fields of a line.
pub fn split_fields(line: &[u8]) -> (r: Vec<Vec<u8>>)
    ensures
        r@.map_values(|v: Vec<u8>| v@) == split(line@),
{
    let mut done: Vec<Vec<u8>> = Vec::new();
    let mut cur: Vec<u8> = Vec::new();
    let mut i: usize = 0;
    while i < line.len()
        invariant
            i <= line@.len(),
            done@.map_values(|v: Vec<u8>| v@).push(cur@) == split(line@.subrange(0, i as int)),
        decreases line@.len() - i,
    {
        let ghost prev = line@.subrange(0, i as int);
        let ghost next = line@.subrange(0, i as int + 1);
        assert(next.drop_last() =~= prev);
        let c = line[i];
        if c == 32u8 {
            done.push(cur);
            cur = Vec::new();
            assert(done@.map_values(|v: Vec<u8>| v@).push(cur@) =~= split(next));
        } else {
            cur.push(c);
            assert(done@.map_values(|v: Vec<u8>| v@).push(cur@) =~= split(next));
        }
        i = i + 1;
    }
    assert(line@.subrange(0, i as int) =~= line@);
    done.push(cur);
    assert(done@.map_values(|v: Vec<u8>| v@) =~= split(line@));
    done
}


/// A request's command.
#[derive(Debug, Clone, Copy, PartialEq, Eq, Structural)]
pub enum Command {
    Get,
    /// `gets`: like `get`, with each item's cas token.
    Gets,
    /// `set`: write unconditionally.
    Store,
    Add,
    Replace,
    /// `cas`: write only when the item still carries the given token.
    Cas,
    Incr,
    Decr,
    Delete,
    FlushAll,
}

/// A parsed request. Fields that a command does not use are zero or empty.
#[derive(Debug, PartialEq, Eq)]
pub struct Request {
    pub command: Command,
    pub key: Vec<u8>,
    pub flags: u32,
    pub ttl: u64,
    pub value: Vec<u8>,
    /// The amount of `incr` and `decr`, or the token of `cas`.
    pub delta: u64,
    pub noreply: bool,
}

pub ghost struct RequestView {
    pub command: Command,
    pub key: Seq<u8>,
    pub flags: u32,
    pub ttl: u64,
    pub value: Seq<u8>,
    pub delta: u64,
    pub noreply: bool,
}

impl View for Request {
    type V = RequestView;

    open spec fn view(&self) -> RequestView {
        RequestView {
            command: self.command,
            key: self.key@,
            flags: self.flags,
            ttl: self.ttl,
            value: self.value@,
            delta: self.delta,
            noreply: self.noreply,
        }
    }
}

pub open spec fn command_of(name: Seq<u8>) -> Option<Command> {
    if name == seq![103u8, 101, 116] {
        Some(Command::Get)
    } else if name == seq![103u8, 101, 116, 115] {
        Some(Command::Gets)
    } else if name == seq![115u8, 101, 116] {
        Some(Command::Store)
    } else if name == seq![97u8, 100, 100] {
        Some(Command::Add)
    } else if name == seq![114u8, 101, 112, 108, 97, 99, 101] {
        Some(Command::Replace)
    } else if name == seq![99u8, 97, 115] {
        Some(Command::Cas)
    } else if name == seq![105u8, 110, 99, 114] {
        Some(Command::Incr)
    } else if name == seq![100u8, 101, 99, 114] {
        Some(Command::Decr)
    } else if name == seq![100u8, 101, 108, 101, 116, 101] {
        Some(Command::Delete)
    } else if name == seq![102u8, 108, 117, 115, 104, 95, 97, 108, 108] {
        Some(Command::FlushAll)
    } else {
        None
    }
}

pub open spec fn noreply_word() -> Seq<u8> {
    seq![110u8, 111, 114, 101, 112, 108, 121]
}

/// The fields hold exactly `n` fields, or `n` and a final `noreply`.
pub open spec fn arity(fs: Seq<Seq<u8>>, n: nat) -> bool {
    fs.len() == n || (fs.len() == n + 1 && fs[n as int] == noreply_word())
}

/// A field that is a decimal number no larger than `max`.
pub open spec fn number_le(f: Seq<u8>, max: nat) -> bool {
    canonical(f) && digits_value(f) <= max
}

pub open spec fn request_view(command: Command, key: Seq<u8>, flags: u32, ttl: u64, value: Seq<u8>, delta: u64, noreply: bool) -> RequestView {
    RequestView { command, key, flags, ttl, value, delta, noreply }
}

/// What parsing the front of `b` gives: the request and the bytes it took.
/// Values longer than `max_value` bytes are refused as invalid.
pub open spec fn parse_request_spec(b: Seq<u8>, max_value: nat) -> Result<(RequestView, nat), ParseError> {
    let e = find_crlf(b, 0);
    if e < 0 {
        Err(ParseError::Incomplete)
    } else {
        let fs = split(b.subrange(0, e));
        let line_end = (e + 2) as nat;
        match command_of(fs[0]) {
            None => Err(ParseError::Unknown),
            Some(Command::FlushAll) => if fs.len() == 1 {
                Ok((request_view(Command::FlushAll, Seq::empty(), 0, 0, Seq::empty(), 0, false), line_end))
            } else {
                Err(ParseError::Invalid)
            },
            Some(c) if c == Command::Get || c == Command::Gets => if fs.len() == 2 && fs[1].len() > 0 {
                Ok((request_view(c, fs[1], 0, 0, Seq::empty(), 0, false), line_end))
            } else {
                Err(ParseError::Invalid)
            },
            Some(Command::Delete) => if arity(fs, 2) && fs[1].len() > 0 {
                Ok((request_view(Command::Delete, fs[1], 0, 0, Seq::empty(), 0, fs.len() == 3), line_end))
            } else {
                Err(ParseError::Invalid)
            },
            Some(c) => if c == Command::Incr || c == Command::Decr {
                if arity(fs, 3) && fs[1].len() > 0 && number_le(fs[2], u64::MAX as nat) {
                    Ok((request_view(c, fs[1], 0, 0, Seq::empty(), digits_value(fs[2]) as u64, fs.len() == 4), line_end))
                } else {
                    Err(ParseError::Invalid)
                }
            } else if arity(fs, if c == Command::Cas { 6nat } else { 5nat }) && fs[1].len() > 0
                && number_le(fs[2], u32::MAX as nat) && number_le(fs[3], u64::MAX as nat)
                && number_le(fs[4], max_value)
                && (c == Command::Cas ==> number_le(fs[5], u64::MAX as nat)) {
                let n = digits_value(fs[4]);
                if b.len() < line_end + n + 2 {
                    Err(ParseError::Incomplete)
                } else if crlf_at(b, (line_end + n) as int) {
                    Ok((request_view(c, fs[1], digits_value(fs[2]) as u32, digits_value(fs[3]) as u64,
                        b.subrange(line_end as int, (line_end + n) as int),
                        if c == Command::Cas { digits_value(fs[5]) as u64 } else { 0u64 },
                        fs.len() == if c == Command::Cas { 7nat } else { 6nat }), line_end + n + 2))
                } else {
                    Err(ParseError::Invalid)
                }
            } else {
                Err(ParseError::Invalid)
            },
        }
    }
}

fn command_exec(name: &[u8]) -> (r: Option<Command>)
    ensures
        r == command_of(name@),
{
    let get: Vec<u8> = vec![103u8, 101, 116];
    let gets: Vec<u8> = vec![103u8, 101, 116, 115];
    let set: Vec<u8> = vec![115u8, 101, 116];
    let add: Vec<u8> = vec![97u8, 100, 100];
    let replace: Vec<u8> = vec![114u8, 101, 112, 108, 97, 99, 101];
    let cas: Vec<u8> = vec![99u8, 97, 115];
    let incr: Vec<u8> = vec![105u8, 110, 99, 114];
    let decr: Vec<u8> = vec![100u8, 101, 99, 114];
    let delete: Vec<u8> = vec![100u8, 101, 108, 101, 116, 101];
    let flush_all: Vec<u8> = vec![102u8, 108, 117, 115, 104, 95, 97, 108, 108];
    assert(get@ =~= seq![103u8, 101, 116]);
    assert(gets@ =~= seq![103u8, 101, 116, 115]);
    assert(set@ =~= seq![115u8, 101, 116]);
    assert(add@ =~= seq![97u8, 100, 100]);
    assert(replace@ =~= seq![114u8, 101, 112, 108, 97, 99, 101]);
    assert(cas@ =~= seq![99u8, 97, 115]);
    assert(incr@ =~= seq![105u8, 110, 99, 114]);
    assert(decr@ =~= seq![100u8, 101, 99, 114]);
    assert(delete@ =~= seq![100u8, 101, 108, 101, 116, 101]);
    assert(flush_all@ =~= seq![102u8, 108, 117, 115, 104, 95, 97, 108, 108]);
    if bytes_eq(name, get.as_slice()) {
        Some(Command::Get)
    } else if bytes_eq(name, gets.as_slice()) {
        Some(Command::Gets)
    } else if bytes_eq(name, set.as_slice()) {
        Some(Command::Store)
    } else if bytes_eq(name, add.as_slice()) {
        Some(Command::Add)
    } else if bytes_eq(name, replace.as_slice()) {
        Some(Command::Replace)
    } else if bytes_eq(name, cas.as_slice()) {
        Some(Command::Cas)
    } else if bytes_eq(name, incr.as_slice()) {
        Some(Command::Incr)
    } else if bytes_eq(name, decr.as_slice()) {
        Some(Command::Decr)
    } else if bytes_eq(name, delete.as_slice()) {
        Some(Command::Delete)
    } else if bytes_eq(name, flush_all.as_slice()) {
        Some(Command::FlushAll)
    } else {
        None
    }
}

fn arity_exec(fs: &Vec<Vec<u8>>, n: usize) -> (r: bool)
    ensures
        r == arity(fs@.map_values(|v: Vec<u8>| v@), n as nat),
{
    let ghost vs = fs@.map_values(|v: Vec<u8>| v@);
    if fs.len() == n {
        return true;
    }
    if fs.len() == 0 || fs.len() - 1 != n {
        return false;
    }
    let word: Vec<u8> = vec![110u8, 111, 114, 101, 112, 108, 121];
    assert(word@ =~= noreply_word());
    let r = bytes_eq(fs[n].as_slice(), word.as_slice());
    assert(vs[n as int] == fs@[n as int]@);
    r
}

fn copy_field(b: &[u8]) -> (r: Vec<u8>)
    ensures
        r@ == b@,
{
    let mut r: Vec<u8> = Vec::new();
    crate::session::append_bytes(&mut r, b);
    r
}


fn empty_request(command: Command, key: Vec<u8>, delta: u64, noreply: bool) -> (r: Request)
    ensures
        r@ == request_view(command, key@, 0, 0, Seq::empty(), delta, noreply),
{
    let r = Request { command, key, flags: 0, ttl: 0, value: Vec::new(), delta, noreply };
    assert(r@.value =~= Seq::<u8>::empty());
    r
}

/// Parses one request from the front of a buffer.
pub struct RequestParser {
    max_value: usize,
}

impl RequestParser {
    /// The longest value a request may carry, in bytes.
    pub closed spec fn max_value_spec(&self) -> nat {
        self.max_value as nat
    }

    /// A parser that refuses values longer than `max_value` bytes.
    pub fn new(max_value: usize) -> (r: RequestParser)
        ensures
            r.max_value_spec() == max_value,
    {
        RequestParser { max_value }
    }
}

impl Parse<Request> for RequestParser {
    fn parse(&self, buffer: &[u8]) -> (r: Result<ParseOk<Request>, ParseError>)
        ensures
            r matches Ok(ok) ==> parse_request_spec(buffer@, self.max_value_spec()) == Ok::<(RequestView, nat), ParseError>(
                (ok.message_spec()@, ok.consumed_spec() as nat),
            ),
            r matches Err(e) ==> parse_request_spec(buffer@, self.max_value_spec()) == Err::<(RequestView, nat), ParseError>(e),
    {
        let e = match find_line_end(buffer) {
            None => {
                return Err(ParseError::Incomplete);
            },
            Some(e) => e,
        };
        proof {
            lemma_find_crlf_found(buffer@, 0);
        }
        let total = buffer.len();
        assert(e + 2 <= total);
        let line = vstd::slice::slice_subrange(buffer, 0, e);
        let fs = split_fields(line);
        let ghost vs = fs@.map_values(|v: Vec<u8>| v@);
        proof {
            lemma_split_nonempty(line@);
        }
        assert(vs.len() == fs@.len());
        let line_end = e + 2;
        assert(vs[0] == fs@[0]@);
        let cmd = command_exec(fs[0].as_slice());
        match cmd {
            None => Err(ParseError::Unknown),
            Some(Command::FlushAll) => {
                if fs.len() == 1 {
                    Ok(ParseOk::new(empty_request(Command::FlushAll, Vec::new(), 0, false), line_end))
                } else {
                    Err(ParseError::Invalid)
                }
            },
            Some(c) if c == Command::Get || c == Command::Gets => {
                if fs.len() == 2 && fs[1].len() > 0 {
                    assert(vs[1] == fs@[1]@);
                    let key = copy_field(fs[1].as_slice());
                    Ok(ParseOk::new(empty_request(c, key, 0, false), line_end))
                } else {
                    proof {
                        if fs@.len() == 2 {
                            assert(vs[1] == fs@[1]@);
                        }
                    }
                    Err(ParseError::Invalid)
                }
            },
            Some(Command::Delete) => {
                if arity_exec(&fs, 2) && fs[1].len() > 0 {
                    assert(vs[1] == fs@[1]@);
                    let key = copy_field(fs[1].as_slice());
                    Ok(ParseOk::new(empty_request(Command::Delete, key, 0, fs.len() == 3), line_end))
                } else {
                    proof {
                        if arity(vs, 2) {
                            assert(vs[1] == fs@[1]@);
                        }
                    }
                    Err(ParseError::Invalid)
                }
            },
            Some(c) => {
                if !arity_exec(&fs, if c == Command::Incr || c == Command::Decr { 3 } else if c == Command::Cas { 6 } else { 5 }) {
                    return Err(ParseError::Invalid);
                }
                assert(vs[1] == fs@[1]@);
                assert(vs[2] == fs@[2]@);
                if fs[1].len() == 0 {
                    return Err(ParseError::Invalid);
                }
                if c == Command::Incr || c == Command::Decr {
                    return match parse_decimal(fs[2].as_slice()) {
                        None => Err(ParseError::Invalid),
                        Some(d) => {
                            let key = copy_field(fs[1].as_slice());
                            Ok(ParseOk::new(empty_request(c, key, d, fs.len() == 4), line_end))
                        },
                    };
                }
                assert(vs[3] == fs@[3]@);
                assert(vs[4] == fs@[4]@);
                let flags = match parse_decimal(fs[2].as_slice()) {
                    Some(f) => {
                        if f > 0xffff_ffffu64 {
                            return Err(ParseError::Invalid);
                        }
                        f as u32
                    },
                    None => {
                        return Err(ParseError::Invalid);
                    },
                };
                let ttl = match parse_decimal(fs[3].as_slice()) {
                    Some(t) => t,
                    None => {
                        return Err(ParseError::Invalid);
                    },
                };
                let n = match parse_decimal(fs[4].as_slice()) {
                    Some(n) => {
                        if n as u128 > self.max_value as u128 {
                            return Err(ParseError::Invalid);
                        }
                        n as usize
                    },
                    None => {
                        return Err(ParseError::Invalid);
                    },
                };
                let token = if c == Command::Cas {
                    assert(vs[5] == fs@[5]@);
                    match parse_decimal(fs[5].as_slice()) {
                        Some(t) => t,
                        None => {
                            return Err(ParseError::Invalid);
                        },
                    }
                } else {
                    0
                };
                if n > total - line_end || total - line_end - n < 2 {
                    return Err(ParseError::Incomplete);
                }
                let end = line_end + n;
                if buffer[end] != 13u8 || buffer[end + 1] != 10u8 {
                    return Err(ParseError::Invalid);
                }
                let key = copy_field(fs[1].as_slice());
                let value = copy_field(vstd::slice::slice_subrange(buffer, line_end, end));
                let extra: usize = if c == Command::Cas { 1 } else { 0 };
                let req = Request { command: c, key, flags, ttl, value, delta: token, noreply: fs.len() == 6 + extra };
                Ok(ParseOk::new(req, end + 2))
            },
        }
    }
}


/// Cutting a buffer after its first line terminator keeps where the search
/// finds it; cutting before it leaves none.
proof fn lemma_find_crlf_cut(b: Seq<u8>, k: int, i: nat)
    requires
        find_crlf(b, 0) >= 0,
        i <= find_crlf(b, 0),
        0 <= k <= b.len(),
        find_crlf(b, i) == find_crlf(b, 0),
    ensures
        k >= find_crlf(b, 0) + 2 ==> find_crlf(b.subrange(0, k), i) == find_crlf(b, 0),
        k < find_crlf(b, 0) + 2 ==> find_crlf(b.subrange(0, k), i) == -1,
    decreases b.len() - i,
{
    let e = find_crlf(b, 0);
    let p = b.subrange(0, k);
    if i < e {
        assert(!crlf_at(b, i as int));
        lemma_find_crlf_cut(b, k, i + 1);
        if i + 1 < p.len() {
            assert(p[i as int] == b[i as int] && p[i as int + 1] == b[i as int + 1]);
        }
    } else {
        lemma_find_crlf_found(b, 0);
        if k >= e + 2 {
            assert(p[i as int] == b[i as int] && p[i as int + 1] == b[i as int + 1]);
        }
    }
}

/// A request is incomplete until all its bytes have arrived, and from then on
/// it parses the same whatever follows it.
pub proof fn lemma_request_prefixes(b: Seq<u8>, c: Seq<u8>, k: int, max_value: nat)
    requires
        parse_request_spec(b, max_value) is Ok,
        0 <= k < parse_request_spec(b, max_value)->Ok_0.1,
        parse_request_spec(b, max_value)->Ok_0.1 <= c.len(),
        c.subrange(0, parse_request_spec(b, max_value)->Ok_0.1 as int) == b.subrange(0, parse_request_spec(b, max_value)->Ok_0.1 as int),
    ensures
        parse_request_spec(b.subrange(0, k), max_value) == Err::<(RequestView, nat), ParseError>(ParseError::Incomplete),
        parse_request_spec(c, max_value) == parse_request_spec(b, max_value),
{
    let e = find_crlf(b, 0);
    let n = parse_request_spec(b, max_value)->Ok_0.1;
    lemma_find_crlf_found(b, 0);
    lemma_find_crlf_cut(b, k, 0);
    let p = b.subrange(0, k);
    if k >= e + 2 {
        assert(p.subrange(0, e) =~= b.subrange(0, e));
    }
    // the cut buffer `c` agrees with `b` on its first `n` bytes
    let bn = b.subrange(0, n as int);
    lemma_find_crlf_cut(b, n as int, 0);
    assert(bn.subrange(0, e) =~= b.subrange(0, e));
    lemma_find_crlf_found(bn, 0);
    assert forall|j: int| 0 <= j < n implies c[j] == b[j] by {
        assert(c.subrange(0, n as int)[j] == b.subrange(0, n as int)[j]);
    }
    assert forall|j: int| 0 <= j < e + 2 implies c[j] == b[j] by {}
    lemma_find_crlf_before(b, 0);
    assert forall|j: int| 0 <= j < e implies !crlf_at(c, j) by {
        assert(!crlf_at(b, j));
        assert(c[j] == b[j] && c[j + 1] == b[j + 1]);
    }
    lemma_find_crlf_first(c, 0, e);
    assert(c.subrange(0, e) =~= b.subrange(0, e));
    let fs = split(b.subrange(0, e));
    let line_end = (e + 2) as nat;
    if n > line_end {
        let d = digits_value(fs[4]);
        assert(n == line_end + d + 2);
        assert(c.subrange(line_end as int, (line_end + d) as int) =~= b.subrange(line_end as int, (line_end + d) as int));
    }
}

/// No terminator starts before the one that the search finds.
proof fn lemma_find_crlf_before(b: Seq<u8>, i: nat)
    requires
        find_crlf(b, i) >= 0,
    ensures
        forall|k: int| i <= k < find_crlf(b, i) ==> !crlf_at(b, k),
    decreases b.len() - i,
{
    if i + 1 < b.len() && !crlf_at(b, i as int) {
        lemma_find_crlf_before(b, i + 1);
    }
}

} // verus!
