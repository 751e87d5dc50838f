//! The memcache text protocol's status and numeric reply lines: their wire
//! form, and a parser that reads them back.

use vstd::prelude::*;
use crate::protocol::{Compose, Parse, ParseError, ParseOk};
use crate::session::{append_bytes, Session, SessionView};
use crate::text::{
    bytes_eq, canonical, decimal, digits_value, is_digit, lemma_canonical_decimal,
    lemma_decimal_canonical, parse_decimal, push_decimal,
};

verus! {

/// A one-line reply.
#[derive(Debug, Clone, Copy, PartialEq, Eq, Structural)]
pub enum Response {
    Stored,
    NotStored,
    Exists,
    NotFound,
    Deleted,
    End,
    Error,
    /// Reply to `flush_all`.
    Okay,
    /// The new value after `incr` or `decr`.
    Numeric(u64),
}

/// The reply line without its terminator.
pub open spec fn keyword(r: Response) -> Seq<u8> {
    match r {
        Response::Stored => seq![83u8, 84, 79, 82, 69, 68],
        Response::NotStored => seq![78u8, 79, 84, 95, 83, 84, 79, 82, 69, 68],
        Response::Exists => seq![69u8, 88, 73, 83, 84, 83],
        Response::NotFound => seq![78u8, 79, 84, 95, 70, 79, 85, 78, 68],
        Response::Deleted => seq![68u8, 69, 76, 69, 84, 69, 68],
        Response::End => seq![69u8, 78, 68],
        Response::Error => seq![69u8, 82, 82, 79, 82],
        Response::Okay => seq![79u8, 75],
        Response::Numeric(n) => decimal(n as nat),
    }
}

pub open spec fn crlf() -> Seq<u8> {
    seq![13u8, 10]
}

/// The full wire form of a reply.
pub open spec fn response_wire(r: Response) -> Seq<u8> {
    keyword(r) + crlf()
}

/// The reply that a line (without terminator) spells, if any.
pub open spec fn line_response(l: Seq<u8>) -> Option<Response> {
    if l == keyword(Response::Stored) {
        Some(Response::Stored)
    } else if l == keyword(Response::NotStored) {
        Some(Response::NotStored)
    } else if l == keyword(Response::Exists) {
        Some(Response::Exists)
    } else if l == keyword(Response::NotFound) {
        Some(Response::NotFound)
    } else if l == keyword(Response::Deleted) {
        Some(Response::Deleted)
    } else if l == keyword(Response::End) {
        Some(Response::End)
    } else if l == keyword(Response::Error) {
        Some(Response::Error)
    } else if l == keyword(Response::Okay) {
        Some(Response::Okay)
    } else if canonical(l) && digits_value(l) <= u64::MAX {
        Some(Response::Numeric(digits_value(l) as u64))
    } else {
        None
    }
}

/// A line terminator starts at `i`.
pub open spec fn crlf_at(b: Seq<u8>, i: int) -> bool {
    0 <= i && i + 1 < b.len() && b[i] == 13 && b[i + 1] == 10
}

/// Where the first line terminator at or after `i` starts; -1 for none.
pub open spec fn find_crlf(b: Seq<u8>, i: nat) -> int
    decreases b.len() - i,
{
    if i + 1 >= b.len() {
        -1
    } else if crlf_at(b, i as int) {
        i as int
    } else {
        find_crlf(b, i + 1)
    }
}

/// What parsing the front of `b` gives: the reply and the bytes it took.
pub open spec fn parse_spec(b: Seq<u8>) -> Result<(Response, nat), ParseError> {
    let e = find_crlf(b, 0);
    if e < 0 {
        Err(ParseError::Incomplete)
    } else {
        match line_response(b.subrange(0, e)) {
            Some(r) => Ok((r, (e + 2) as nat)),
            None => Err(ParseError::Invalid),
        }
    }
}

/// The reply line without its terminator.
pub fn keyword_bytes(r: Response) -> (v: Vec<u8>)
    ensures
        v@ == keyword(r),
{
    let v: Vec<u8> = match r {
        Response::Stored => vec![83u8, 84, 79, 82, 69, 68],
        Response::NotStored => vec![78u8, 79, 84, 95, 83, 84, 79, 82, 69, 68],
        Response::Exists => vec![69u8, 88, 73, 83, 84, 83],
        Response::NotFound => vec![78u8, 79, 84, 95, 70, 79, 85, 78, 68],
        Response::Deleted => vec![68u8, 69, 76, 69, 84, 69, 68],
        Response::End => vec![69u8, 78, 68],
        Response::Error => vec![69u8, 82, 82, 79, 82],
        Response::Okay => vec![79u8, 75],
        Response::Numeric(n) => {
            let mut t: Vec<u8> = Vec::new();
            push_decimal(&mut t, n);
            t
        },
    };
    assert(v@ =~= keyword(r));
    v
}

impl Response {
    /// The full wire form of the reply.
    pub fn to_bytes(self) -> (v: Vec<u8>)
        ensures
            v@ == response_wire(self),
    {
        let mut v = keyword_bytes(self);
        v.push(13u8);
        v.push(10u8);
        assert(v@ =~= response_wire(self));
        v
    }
}

impl Compose for Response {
    open spec fn wire(&self) -> Seq<u8> {
        response_wire(*self)
    }

    fn compose(self, dst: &mut Session) {
        let v = self.to_bytes();
        dst.write(v.as_slice());
    }
}

/// The reply block of one item read by `get`:
/// `VALUE <key> <flags> <bytes>\r\n<data>\r\n`.
pub open spec fn value_wire(key: Seq<u8>, flags: u32, data: Seq<u8>) -> Seq<u8> {
    seq![86u8, 65, 76, 85, 69, 32] + key + seq![32u8] + decimal(flags as nat) + seq![32u8]
        + decimal(data.len()) + crlf() + data + crlf()
}

/// The reply block of one item read by `gets`:
/// `VALUE <key> <flags> <bytes> <cas>\r\n<data>\r\n`.
pub open spec fn gets_value_wire(key: Seq<u8>, flags: u32, data: Seq<u8>, cas: u64) -> Seq<u8> {
    seq![86u8, 65, 76, 85, 69, 32] + key + seq![32u8] + decimal(flags as nat) + seq![32u8]
        + decimal(data.len()) + seq![32u8] + decimal(cas as nat) + crlf() + data + crlf()
}

/// Writes the reply block of one item read by `gets`.
pub fn gets_value_response(key: &[u8], flags: u32, data: &[u8], cas: u64) -> (r: Vec<u8>)
    ensures
        r@ == gets_value_wire(key@, flags, data@, cas),
{
    let mut r: Vec<u8> = vec![86u8, 65, 76, 85, 69, 32];
    append_bytes(&mut r, key);
    r.push(32u8);
    push_decimal(&mut r, flags as u64);
    r.push(32u8);
    push_decimal(&mut r, data.len() as u64);
    r.push(32u8);
    push_decimal(&mut r, cas);
    r.push(13u8);
    r.push(10u8);
    append_bytes(&mut r, data);
    r.push(13u8);
    r.push(10u8);
    assert(r@ =~= gets_value_wire(key@, flags, data@, cas));
    r
}

/// Writes the reply block of one item read by `get`.
pub fn value_response(key: &[u8], flags: u32, data: &[u8]) -> (r: Vec<u8>)
    ensures
        r@ == value_wire(key@, flags, data@),
{
    let mut r: Vec<u8> = vec![86u8, 65, 76, 85, 69, 32];
    append_bytes(&mut r, key);
    r.push(32u8);
    push_decimal(&mut r, flags as u64);
    r.push(32u8);
    push_decimal(&mut r, data.len() as u64);
    r.push(13u8);
    r.push(10u8);
    append_bytes(&mut r, data);
    r.push(13u8);
    r.push(10u8);
    assert(r@ =~= value_wire(key@, flags, data@));
    r
}

/// Where the first line terminator of `b` starts.
pub(crate) fn find_line_end(b: &[u8]) -> (r: Option<usize>)
    ensures
        r matches Some(e) ==> e as int == find_crlf(b@, 0),
        r is None ==> find_crlf(b@, 0) < 0,
{
    if b.len() < 2 {
        return None;
    }
    let mut i: usize = 0;
    while i < b.len() - 1
        invariant
            b@.len() >= 2,
            i <= b@.len(),
            find_crlf(b@, 0) == find_crlf(b@, i as nat),
        decreases b@.len() - i,
    {
        if b[i] == 13u8 && b[i + 1] == 10u8 {
            return Some(i);
        }
        i = i + 1;
    }
    None
}

/// The reply that a line spells, if any.
fn parse_line(line: &[u8]) -> (r: Option<Response>)
    ensures
        r == line_response(line@),
{
    if bytes_eq(line, keyword_bytes(Response::Stored).as_slice()) {
        return Some(Response::Stored);
    }
    if bytes_eq(line, keyword_bytes(Response::NotStored).as_slice()) {
        return Some(Response::NotStored);
    }
    if bytes_eq(line, keyword_bytes(Response::Exists).as_slice()) {
        return Some(Response::Exists);
    }
    if bytes_eq(line, keyword_bytes(Response::NotFound).as_slice()) {
        return Some(Response::NotFound);
    }
    if bytes_eq(line, keyword_bytes(Response::Deleted).as_slice()) {
        return Some(Response::Deleted);
    }
    if bytes_eq(line, keyword_bytes(Response::End).as_slice()) {
        return Some(Response::End);
    }
    if bytes_eq(line, keyword_bytes(Response::Error).as_slice()) {
        return Some(Response::Error);
    }
    if bytes_eq(line, keyword_bytes(Response::Okay).as_slice()) {
        return Some(Response::Okay);
    }
    match parse_decimal(line) {
        Some(v) => Some(Response::Numeric(v)),
        None => None,
    }
}

/// Parses one reply line from the front of a buffer.
pub struct ResponseParser {}

impl ResponseParser {
    pub fn new() -> (r: ResponseParser) {
        ResponseParser {}
    }
}

impl Parse<Response> for ResponseParser {
    fn parse(&self, buffer: &[u8]) -> (r: Result<ParseOk<Response>, ParseError>)
        ensures
            r matches Ok(ok) ==> parse_spec(buffer@) == Ok::<(Response, nat), ParseError>(
                (ok.message_spec(), ok.consumed_spec() as nat),
            ),
            r matches Err(e) ==> parse_spec(buffer@) == Err::<(Response, nat), ParseError>(e),
    {
        match find_line_end(buffer) {
            None => Err(ParseError::Incomplete),
            Some(e) => {
                proof {
                    lemma_find_crlf_found(buffer@, 0);
                    assert(crlf_at(buffer@, e as int));
                }
                let n = buffer.len();
                assert(e + 2 <= n);
                let line = vstd::slice::slice_subrange(buffer, 0, e);
                match parse_line(line) {
                    Some(resp) => Ok(ParseOk::new(resp, e + 2)),
                    None => Err(ParseError::Invalid),
                }
            },
        }
    }
}

/// A terminator that the search finds is one.
pub proof fn lemma_find_crlf_found(b: Seq<u8>, i: nat)
    ensures
        find_crlf(b, i) >= 0 ==> crlf_at(b, find_crlf(b, i)),
    decreases b.len() - i,
{
    if i + 1 < b.len() && !crlf_at(b, i as int) {
        lemma_find_crlf_found(b, i + 1);
    }
}

/// The search finds the first terminator.
pub(crate) proof fn lemma_find_crlf_first(b: Seq<u8>, i: nat, j: int)
    requires
        i <= j,
        crlf_at(b, j),
        forall|k: int| i <= k < j ==> !crlf_at(b, k),
    ensures
        find_crlf(b, i) == j,
    decreases j - i,
{
    if i < j {
        lemma_find_crlf_first(b, i + 1, j);
    }
}

/// The search fails on bytes without a terminator.
proof fn lemma_find_crlf_none(b: Seq<u8>, i: nat)
    requires
        forall|k: int| i <= k ==> !crlf_at(b, k),
    ensures
        find_crlf(b, i) == -1,
    decreases b.len() - i,
{
    if i + 1 < b.len() {
        lemma_find_crlf_none(b, i + 1);
    }
}

/// A reply line holds no carriage return.
proof fn lemma_keyword_no_cr(r: Response)
    ensures
        forall|i: int| 0 <= i < keyword(r).len() ==> #[trigger] keyword(r)[i] != 13,
{
    if let Response::Numeric(n) = r {
        lemma_decimal_canonical(n as nat);
        assert forall|i: int| 0 <= i < keyword(r).len() implies #[trigger] keyword(r)[i] != 13 by {
            assert(is_digit(decimal(n as nat)[i]));
        }
    }
}

/// Each reply line spells that reply.
proof fn lemma_line_keyword(r: Response)
    ensures
        line_response(keyword(r)) == Some(r),
{
    let k = keyword(r);
    assert(keyword(Response::Stored)[0] != keyword(Response::Exists)[0]);
    assert(keyword(Response::NotStored)[4] != keyword(Response::NotFound)[4]);
    assert(keyword(Response::NotStored).len() != keyword(Response::Deleted).len());
    if let Response::Numeric(n) = r {
        lemma_decimal_canonical(n as nat);
        assert(is_digit(k[0]));
        assert(k != keyword(Response::Stored)) by {
            assert(keyword(Response::Stored)[0] == 83);
        }
        assert(k != keyword(Response::NotStored)) by {
            assert(keyword(Response::NotStored)[0] == 78);
        }
        assert(k != keyword(Response::Exists)) by {
            assert(keyword(Response::Exists)[0] == 69);
        }
        assert(k != keyword(Response::NotFound)) by {
            assert(keyword(Response::NotFound)[0] == 78);
        }
        assert(k != keyword(Response::Deleted)) by {
            assert(keyword(Response::Deleted)[0] == 68);
        }
        assert(k != keyword(Response::End)) by {
            assert(keyword(Response::End)[0] == 69);
        }
        assert(k != keyword(Response::Error)) by {
            assert(keyword(Response::Error)[0] == 69);
        }
        assert(k != keyword(Response::Okay)) by {
            assert(keyword(Response::Okay)[0] == 79);
        }
    } else {
        assert(keyword(Response::Stored) != keyword(Response::Exists));
        assert(keyword(Response::NotStored) != keyword(Response::NotFound));
        assert(keyword(Response::End) != keyword(Response::Error));
    }
}

/// A line that spells a reply is that reply's line.
proof fn lemma_line_inverse(l: Seq<u8>)
    requires
        line_response(l) is Some,
    ensures
        keyword(line_response(l)->Some_0) == l,
{
    if line_response(l) matches Some(Response::Numeric(n)) {
        if l != keyword(Response::Stored) && l != keyword(Response::NotStored)
            && l != keyword(Response::Exists) && l != keyword(Response::NotFound)
            && l != keyword(Response::Deleted) && l != keyword(Response::End)
            && l != keyword(Response::Error) && l != keyword(Response::Okay) {
            lemma_canonical_decimal(l);
        }
    }
}

/// A reply is incomplete until its whole wire form has arrived; from then on
/// it parses to that reply and takes exactly its wire form, whatever follows.
pub proof fn lemma_parse_prefixes(r: Response, rest: Seq<u8>, k: int)
    requires
        0 <= k < response_wire(r).len(),
    ensures
        parse_spec(response_wire(r).subrange(0, k)) == Err::<(Response, nat), ParseError>(
            ParseError::Incomplete,
        ),
        parse_spec(response_wire(r) + rest) == Ok::<(Response, nat), ParseError>(
            (r, response_wire(r).len()),
        ),
{
    let w = response_wire(r);
    let kw = keyword(r);
    lemma_keyword_no_cr(r);
    let p = w.subrange(0, k);
    assert forall|j: int| 0 <= j implies !crlf_at(p, j) by {
        if crlf_at(p, j) {
            assert(p[j] == w[j]);
            if j < kw.len() {
                assert(w[j] == kw[j]);
            }
        }
    }
    lemma_find_crlf_none(p, 0);
    let b = w + rest;
    assert forall|j: int| 0 <= j < kw.len() implies !crlf_at(b, j) by {
        assert(b[j] == kw[j]);
    }
    assert(b[kw.len() as int] == 13 && b[kw.len() as int + 1] == 10);
    lemma_find_crlf_first(b, 0, kw.len() as int);
    assert(b.subrange(0, kw.len() as int) =~= kw);
    lemma_line_keyword(r);
}

/// A buffer that parses whole into a reply is that reply's wire form:
/// composing what was parsed gives back the same bytes.
pub proof fn lemma_compose_parse(wire: Seq<u8>)
    requires
        parse_spec(wire) is Ok,
        parse_spec(wire)->Ok_0.1 == wire.len(),
    ensures
        response_wire(parse_spec(wire)->Ok_0.0) == wire,
{
    let e = find_crlf(wire, 0);
    lemma_find_crlf_found(wire, 0);
    let line = wire.subrange(0, e);
    lemma_line_inverse(line);
    assert(wire =~= line + crlf());
}

} // verus!
