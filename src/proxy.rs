//! Decisions of the proxy's `set` command: what goes to the backend, which
//! reply the client gets for each backend outcome, and the command log line.
//! The caller does the network work: it sends the request with its deadline
//! and writes the reply.

use vstd::prelude::*;
use vstd::string::StringSliceAdditionalSpecFns;
use vstd::utf8::valid_utf8;
use crate::text::{decimal, push_decimal};
use crate::session::append_bytes;

verus! {

/// Relies on std::str::from_utf8: it succeeds exactly when the bytes are
/// valid UTF-8.
#[verifier::external_body]
fn is_utf8(bytes: &[u8]) -> (r: bool)
    ensures
        r == valid_utf8(bytes@),
{
    std::str::from_utf8(bytes).is_ok()
}

/// The value of a `set` request as the parser delivered it.
#[derive(Debug, PartialEq, Eq)]
pub enum EntryValue {
    Bytes(Vec<u8>),
    U64(u64),
}

/// Why a `set` was not sent to the backend. The client gets `ERROR\r\n`.
#[derive(Debug, Clone, Copy, PartialEq, Eq, Structural)]
pub enum SetRejected {
    /// The key is not valid UTF-8.
    InvalidKey,
    /// The value bytes are not valid UTF-8.
    InvalidValue,
    /// The request carried no value.
    MissingValue,
}

/// What goes to the backend for a `set`.
#[derive(Debug, PartialEq, Eq)]
pub struct BackendSet {
    /// UTF-8 key.
    pub key: Vec<u8>,
    /// UTF-8 value.
    pub value: Vec<u8>,
    /// Time to live in seconds; `None` for the backend's default.
    pub ttl: Option<u64>,
}

/// How the backend call ended.
#[derive(Debug, Clone, Copy, PartialEq, Eq, Structural)]
pub enum BackendResult {
    /// The backend stored the item.
    Stored,
    /// The backend answered that it did not store the item.
    NotStored,
    /// The backend refused the call for its rate limit.
    LimitExceeded,
    /// The call failed otherwise.
    Failed,
    /// The call did not finish before its deadline.
    Timeout,
}

/// What the client gets for a `set`, and the result fields of the command log
/// line when one is written.
#[derive(Debug, PartialEq, Eq)]
pub struct SetReply {
    /// Bytes to write back; empty for none.
    pub response: Vec<u8>,
    /// Result code and response length for the command log.
    pub log: Option<(usize, usize)>,
}

/// Deadline of a backend call, in milliseconds.
pub const BACKEND_TIMEOUT_MS: u64 = 200;

/// Result code logged for a stored item.
pub const RESULT_STORED: usize = 5;

/// Result code logged for an item that was not stored.
pub const RESULT_NOT_STORED: usize = 9;

pub open spec fn error_wire() -> Seq<u8> {
    seq![69u8, 82, 82, 79, 82, 13, 10]
}

pub open spec fn stored_wire() -> Seq<u8> {
    seq![83u8, 84, 79, 82, 69, 68, 13, 10]
}

pub open spec fn not_stored_wire() -> Seq<u8> {
    seq![78u8, 79, 84, 95, 83, 84, 79, 82, 69, 68, 13, 10]
}

/// The value text sent to the backend.
pub open spec fn value_text(v: EntryValue) -> Seq<u8> {
    match v {
        EntryValue::Bytes(b) => b@,
        EntryValue::U64(n) => decimal(n as nat),
    }
}

/// A zero time to live means none.
pub open spec fn backend_ttl(ttl: Option<u64>) -> Option<u64> {
    match ttl {
        Some(t) => if t > 0 { Some(t) } else { None },
        None => None,
    }
}

/// The reply for each backend outcome. A plain accept or refusal honours
/// `noreply`; a failed call always answers `NOT_STORED` and is not logged.
pub open spec fn reply_spec(result: BackendResult, noreply: bool) -> (Seq<u8>, Option<(usize, usize)>) {
    match result {
        BackendResult::Stored => if noreply {
            (Seq::empty(), Some((5usize, 0usize)))
        } else {
            (stored_wire(), Some((5usize, 8usize)))
        },
        BackendResult::NotStored => if noreply {
            (Seq::empty(), Some((9usize, 0usize)))
        } else {
            (not_stored_wire(), Some((9usize, 12usize)))
        },
        _ => (not_stored_wire(), None),
    }
}

/// The `ERROR` reply line.
pub fn error_response() -> (r: Vec<u8>)
    ensures
        r@ == error_wire(),
{
    let r: Vec<u8> = vec![69u8, 82, 82, 79, 82, 13, 10];
    assert(r@ =~= error_wire());
    r
}

/// Checks a `set` and builds the backend request: the key first, then the
/// value. A numeric value goes as its decimal text.
pub fn set_request(key: &[u8], value: Option<EntryValue>, ttl: Option<u64>) -> (r: Result<BackendSet, SetRejected>)
    ensures
        !valid_utf8(key@) ==> r == Err::<BackendSet, SetRejected>(SetRejected::InvalidKey),
        valid_utf8(key@) && value is None ==> r == Err::<BackendSet, SetRejected>(SetRejected::MissingValue),
        valid_utf8(key@) && (value matches Some(EntryValue::Bytes(b)) && !valid_utf8(b@))
            ==> r == Err::<BackendSet, SetRejected>(SetRejected::InvalidValue),
        valid_utf8(key@) && (value matches Some(EntryValue::Bytes(b)) && valid_utf8(b@)) ==> r is Ok,
        valid_utf8(key@) && (value matches Some(EntryValue::U64(_))) ==> r is Ok,
        r matches Ok(req) ==> {
            &&& req.key@ == key@
            &&& req.value@ == value_text(value->Some_0)
            &&& req.ttl == backend_ttl(ttl)
        },
{
    if !is_utf8(key) {
        return Err(SetRejected::InvalidKey);
    }
    let text = match value {
        None => {
            return Err(SetRejected::MissingValue);
        },
        Some(EntryValue::Bytes(b)) => {
            if !is_utf8(b.as_slice()) {
                return Err(SetRejected::InvalidValue);
            }
            b
        },
        Some(EntryValue::U64(n)) => {
            let mut t: Vec<u8> = Vec::new();
            push_decimal(&mut t, n);
            assert(t@ =~= decimal(n as nat));
            t
        },
    };
    let mut k: Vec<u8> = Vec::new();
    append_bytes(&mut k, key);
    assert(k@ =~= key@);
    let backend_ttl = match ttl {
        Some(t) => if t > 0 { Some(t) } else { None },
        None => None,
    };
    Ok(BackendSet { key: k, value: text, ttl: backend_ttl })
}

/// The reply to the client and the log fields for a backend outcome.
pub fn set_reply(result: BackendResult, noreply: bool) -> (r: SetReply)
    ensures
        (r.response@, r.log) == reply_spec(result, noreply),
{
    let stored: Vec<u8> = vec![83u8, 84, 79, 82, 69, 68, 13, 10];
    let not_stored: Vec<u8> = vec![78u8, 79, 84, 95, 83, 84, 79, 82, 69, 68, 13, 10];
    assert(stored@ =~= stored_wire());
    assert(not_stored@ =~= not_stored_wire());
    match result {
        BackendResult::Stored => if noreply {
            SetReply { response: Vec::new(), log: Some((RESULT_STORED, 0)) }
        } else {
            SetReply { response: stored, log: Some((RESULT_STORED, 8)) }
        },
        BackendResult::NotStored => if noreply {
            SetReply { response: Vec::new(), log: Some((RESULT_NOT_STORED, 0)) }
        } else {
            SetReply { response: not_stored, log: Some((RESULT_NOT_STORED, 12)) }
        },
        _ => SetReply { response: not_stored, log: None },
    }
}

/// The whole seconds of a time to live, as the log writes them: zero for
/// none, and only the low 32 bits.
pub fn klog_ttl(ttl: Option<u64>) -> (r: u32)
    ensures
        r == match ttl {
            Some(t) => t as u32,
            None => 0u32,
        },
{
    match ttl {
        Some(t) => t as u32,
        None => 0,
    }
}

/// The command log line of a `set`:
/// `"set <key> <flags> <ttl> <value_len>" <result_code> <response_len>`.
pub open spec fn klog_line(key: Seq<u8>, flags: u32, ttl: u32, value_len: usize, result_code: usize, response_len: usize) -> Seq<u8> {
    seq![34u8, 115, 101, 116, 32] + key + seq![32u8] + decimal(flags as nat) + seq![32u8]
        + decimal(ttl as nat) + seq![32u8] + decimal(value_len as nat) + seq![34u8, 32]
        + decimal(result_code as nat) + seq![32u8] + decimal(response_len as nat)
}

/// Builds the command log line of a `set`.
pub fn klog_set(key: &str, flags: u32, ttl: u32, value_len: usize, result_code: usize, response_len: usize) -> (r: Vec<u8>)
    ensures
        r@ == klog_line(key.spec_bytes(), flags, ttl, value_len, result_code, response_len),
{
    let mut line: Vec<u8> = vec![34u8, 115, 101, 116, 32];
    append_bytes(&mut line, key.as_bytes());
    line.push(32u8);
    push_decimal(&mut line, flags as u64);
    line.push(32u8);
    push_decimal(&mut line, ttl as u64);
    line.push(32u8);
    push_decimal(&mut line, value_len as u64);
    line.push(34u8);
    line.push(32u8);
    push_decimal(&mut line, result_code as u64);
    line.push(32u8);
    push_decimal(&mut line, response_len as u64);
    assert(line@ =~= klog_line(key.spec_bytes(), flags, ttl, value_len, result_code, response_len));
    line
}

} // verus!
