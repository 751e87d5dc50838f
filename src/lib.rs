//! Verified core of a segment-cache server runtime: the protocol traits, the
//! buffered session byte streams, the memcache request parser and reply
//! codec, the segment-structured item storage with eager TTL expiration and
//! its request executor, the poller's session table, the listener's
//! accept/handshake decisions, and the proxy's `set` decisions.

mod listener;
mod poll;
mod protocol;
mod queue;
mod proxy;
mod request;
mod response;
mod seg;
mod session;
mod storage;
mod text;
mod worker;

pub use listener::{
    accept_decision, bump, bumped, burst_results, lemma_burst_drops, dispatch, errors_after, failures, lemma_drops_counted,
    max_buffer_size, session_event_steps, AcceptAction, Dispatch, EventStep, Handshake,
    HandshakeAction, Listener, Signal,
    TlsAccept, DEFAULT_BUFFER_SIZE, LISTENER_TOKEN, WAKER_TOKEN,
};
pub use poll::{SessionTable, TableError};
pub use queue::BoundedQueue;
pub use protocol::{Compose, Execute, Parse, ParseError, ParseOk, CRLF};
pub use proxy::{
    backend_ttl, error_response, error_wire, klog_line, klog_set, klog_ttl, not_stored_wire,
    reply_spec, set_reply, set_request, stored_wire, value_text, BackendResult, BackendSet,
    EntryValue, SetRejected, SetReply, BACKEND_TIMEOUT_MS, RESULT_NOT_STORED, RESULT_STORED,
};
pub use request::{
    arity, command_of, lemma_request_prefixes, noreply_word, number_le, parse_request_spec,
    request_view, split, split_fields, Command, Request, RequestParser, RequestView,
};
pub use response::{
    crlf, crlf_at, find_crlf, gets_value_response, gets_value_wire, keyword, keyword_bytes, lemma_compose_parse, lemma_find_crlf_found,
    lemma_parse_prefixes, line_response, parse_spec, response_wire, value_response, value_wire,
    Response, ResponseParser,
};
pub use seg::{
    as_set_result, bucket_end, expiry_of, incr_as_set_result, item_size, lemma_largest_item,
    lemma_set_never_expires, lemma_stale_token, live_at, Found, IncrResult, Item, ItemView, Seg,
    SetError, StoreResult, ITEM_HEADER_SIZE, TTL_BUCKET_WIDTH,
};
pub use session::{append_bytes, lemma_wire_order, Session, SessionError, SessionView};
pub use storage::{
    executed, get_reply, gets_reply, incr_answered, opt_view, incr_outcome, incr_response, reply, store_answered, store_outcome,
    store_response, Storage,
};
pub use text::{
    all_digits, bytes_eq, canonical, decimal, digit, digits_value, is_digit,
    lemma_canonical_decimal, lemma_decimal_canonical, lemma_value_prefix, parse_decimal,
    push_decimal,
};
pub use worker::{handle_data, lemma_untouched_key_kept, ran, reply_bytes, untouched};
