//! Execution of parsed requests against the segment storage, and the reply
//! bytes for each.

use vstd::prelude::*;
use crate::protocol::Execute;
use crate::request::{Command, Request, RequestView};
use crate::response::{gets_value_response, gets_value_wire, response_wire, value_response, value_wire, Response};
use crate::seg::{expiry_of, as_set_result, incr_as_set_result, IncrResult, Seg, StoreResult};
use crate::text::{canonical, decimal, digits_value};

verus! {

/// The reply to a write. A failed write answers with an error line.
pub open spec fn store_response(r: StoreResult) -> Response {
    match r {
        StoreResult::Stored(_) => Response::Stored,
        StoreResult::NotStored => Response::NotStored,
        StoreResult::Exists => Response::Exists,
        StoreResult::NotFound => Response::NotFound,
        StoreResult::Failed(_) => Response::Error,
    }
}

/// The reply to `incr` or `decr`.
pub open spec fn incr_response(r: IncrResult) -> Response {
    match r {
        IncrResult::Value { value, cas } => Response::Numeric(value),
        IncrResult::NotFound => Response::NotFound,
        _ => Response::Error,
    }
}

/// `noreply` drops a reply line, but never an error line.
pub open spec fn reply(resp: Response, noreply: bool) -> Option<Seq<u8>> {
    if noreply && resp != Response::Error {
        None
    } else {
        Some(response_wire(resp))
    }
}

/// The reply to `get`: the item's block, if any, then `END`.
pub open spec fn get_reply(seg: Seg, key: Seq<u8>, now: u64) -> Seq<u8> {
    match seg.lookup(key, now) {
        Some(v) => value_wire(key, v.flags, v.value) + response_wire(Response::End),
        None => response_wire(Response::End),
    }
}

/// The reply to `gets`: the item's block with its cas token, if any, then `END`.
pub open spec fn gets_reply(seg: Seg, key: Seq<u8>, now: u64) -> Seq<u8> {
    match seg.lookup(key, now) {
        Some(v) => gets_value_wire(key, v.flags, v.value, v.cas) + response_wire(Response::End),
        None => response_wire(Response::End),
    }
}

/// What a `set`, `add` or `replace` does to the storage, with result `r`.
pub open spec fn store_outcome(
    old: Seg,
    new: Seg,
    command: Command,
    key: Seq<u8>,
    value: Seq<u8>,
    flags: u32,
    expiry: u64,
    now: u64,
    token: u64,
    r: StoreResult,
) -> bool {
    let write = (r is Stored || r is Failed) && old.set_post(new, key, value, flags, expiry, as_set_result(r));
    match command {
        Command::Add => if old.lookup(key, now) is Some {
            r == StoreResult::NotStored && old.unchanged(new)
        } else {
            write
        },
        Command::Replace => if old.lookup(key, now) is None {
            r == StoreResult::NotStored && old.unchanged(new)
        } else {
            write
        },
        Command::Cas => match old.lookup(key, now) {
            None => r == StoreResult::NotFound && old.unchanged(new),
            Some(v) => if v.cas != token {
                r == StoreResult::Exists && old.unchanged(new)
            } else {
                write
            },
        },
        _ => write,
    }
}

/// What an `incr` or `decr` does to the storage, with result `r`.
pub open spec fn incr_outcome(old: Seg, new: Seg, up: bool, key: Seq<u8>, delta: u64, now: u64, r: IncrResult) -> bool {
    match old.lookup(key, now) {
        None => r == IncrResult::NotFound && old.unchanged(new),
        Some(v) => if !(canonical(v.value) && digits_value(v.value) <= u64::MAX) {
            r == IncrResult::NotNumeric && old.unchanged(new)
        } else {
            let n = digits_value(v.value);
            let m = if up {
                ((n + delta) % 0x1_0000_0000_0000_0000) as u64
            } else if n >= delta {
                (n - delta) as u64
            } else {
                0u64
            };
            &&& (r is Value || r is Failed)
            &&& (r matches IncrResult::Value { value, cas } ==> value == m)
            &&& old.set_post(new, key, decimal(m as nat), v.flags, v.expiry, incr_as_set_result(r))
        },
    }
}

/// The reply `out` answers a write request `q` that took the storage from
/// `old` to `new` at time `now`.
pub open spec fn store_answered(old: Seg, new: Seg, q: RequestView, now: u64, out: Option<Seq<u8>>) -> bool {
    exists|sr: StoreResult|
        store_outcome(old, new, q.command, q.key, q.value, q.flags, expiry_of(now, q.ttl), now, q.delta, sr)
        && out == reply(store_response(sr), q.noreply)
}

/// The reply `out` answers an `incr` or `decr` request `q` that took the
/// storage from `old` to `new` at time `now`.
pub open spec fn incr_answered(old: Seg, new: Seg, q: RequestView, now: u64, out: Option<Seq<u8>>) -> bool {
    exists|ir: IncrResult|
        incr_outcome(old, new, q.command == Command::Incr, q.key, q.delta, now, ir)
        && out == reply(incr_response(ir), q.noreply)
}

/// The bytes of an optional reply.
pub open spec fn opt_view(r: Option<Vec<u8>>) -> Option<Seq<u8>> {
    match r {
        Some(v) => Some(v@),
        None => None,
    }
}

/// What executing request `q` at time `now` does: it takes the storage from
/// `old_seg` to `new_seg` and answers `out` (`None` for no reply).
pub open spec fn executed(old_seg: Seg, new_seg: Seg, now: u64, q: RequestView, out: Option<Seq<u8>>) -> bool {
    match q.command {
        Command::Get => out == Some(get_reply(old_seg, q.key, now)) && old_seg.unchanged(new_seg),
        Command::Gets => out == Some(gets_reply(old_seg, q.key, now)) && old_seg.unchanged(new_seg),
        Command::Delete => {
            &&& out == reply(if old_seg.lookup(q.key, now) is Some { Response::Deleted } else { Response::NotFound }, q.noreply)
            &&& forall|t: u64| new_seg.lookup(q.key, t) is None
            &&& old_seg.same_except(new_seg, q.key)
        },
        Command::FlushAll => out == Some(response_wire(Response::Okay)) && forall|k: Seq<u8>, t: u64| new_seg.lookup(k, t) is None,
        Command::Incr | Command::Decr => incr_answered(old_seg, new_seg, q, now, out),
        _ => store_answered(old_seg, new_seg, q, now, out),
    }
}

/// The storage together with the clock reading that requests run at.
pub struct Storage {
    seg: Seg,
    now: u64,
}

impl Storage {
    pub open spec fn wf(&self) -> bool {
        self.seg_spec().wf()
    }

    pub closed spec fn seg_spec(&self) -> Seg {
        self.seg
    }

    pub closed spec fn now_spec(&self) -> u64 {
        self.now
    }

    pub fn new(seg: Seg, now: u64) -> (r: Storage)
        requires
            seg.wf(),
        ensures
            r.wf(),
            r.seg_spec() == seg,
            r.now_spec() == now,
    {
        Storage { seg, now }
    }

    /// Moves the clock to `now` and runs an expiration tick there.
    pub fn tick(&mut self, now: u64)
        requires
            old(self).wf(),
        ensures
            final(self).wf(),
            final(self).now_spec() == now,
            old(self).seg_spec().expire_post(final(self).seg_spec(), now),
    {
        self.now = now;
        self.seg.expire(now);
    }

    pub fn now(&self) -> (r: u64)
        ensures
            r == self.now_spec(),
    {
        self.now
    }

    pub fn seg(&self) -> (r: &Seg)
        requires
            self.wf(),
        ensures
            *r == self.seg_spec(),
            r.wf(),
    {
        &self.seg
    }
}

fn reply_bytes(resp: Response, noreply: bool) -> (r: Option<Vec<u8>>)
    ensures
        r matches Some(v) ==> reply(resp, noreply) == Some(v@),
        r is None ==> reply(resp, noreply) is None,
{
    if noreply && resp != Response::Error {
        None
    } else {
        Some(resp.to_bytes())
    }
}

impl Execute<Request, Vec<u8>> for Storage {
    open spec fn ready(&self) -> bool {
        self.wf()
    }

    fn execute(&mut self, request: Request) -> (r: Option<Vec<u8>>)
        ensures
            final(self).now_spec() == old(self).now_spec(),
            executed(old(self).seg_spec(), final(self).seg_spec(), old(self).now_spec(), request@, opt_view(r)),
    {
        let now = self.now;
        let ghost old_seg = self.seg;
        let key = request.key.as_slice();
        match request.command {
            Command::Get => {
                let mut out: Vec<u8> = Vec::new();
                match self.seg.get(key, now) {
                    Some(f) => {
                        out = value_response(key, f.flags, f.value.as_slice());
                    },
                    None => {},
                }
                let end = Response::End.to_bytes();
                crate::session::append_bytes(&mut out, end.as_slice());
                assert(out@ =~= get_reply(old_seg, request@.key, now));
                Some(out)
            },
            Command::Gets => {
                let mut out: Vec<u8> = Vec::new();
                match self.seg.get(key, now) {
                    Some(f) => {
                        out = gets_value_response(key, f.flags, f.value.as_slice(), f.cas);
                    },
                    None => {},
                }
                let end = Response::End.to_bytes();
                crate::session::append_bytes(&mut out, end.as_slice());
                assert(out@ =~= gets_reply(old_seg, request@.key, now));
                Some(out)
            },
            Command::Delete => {
                let found = self.seg.delete(key, now);
                reply_bytes(if found { Response::Deleted } else { Response::NotFound }, request.noreply)
            },
            Command::FlushAll => {
                self.seg.flush_all();
                Some(Response::Okay.to_bytes())
            },
            Command::Incr | Command::Decr => {
                let up = request.command == Command::Incr;
                let ir = if up {
                    self.seg.incr(key, request.delta, now)
                } else {
                    self.seg.decr(key, request.delta, now)
                };
                let resp = match ir {
                    IncrResult::Value { value, cas } => Response::Numeric(value),
                    IncrResult::NotFound => Response::NotFound,
                    _ => Response::Error,
                };
                assert(resp == incr_response(ir));
                assert(incr_outcome(old_seg, self.seg, up, request@.key, request.delta, now, ir));
                reply_bytes(resp, request.noreply)
            },
            _ => {
                let value = request.value.as_slice();
                let sr = match request.command {
                    Command::Add => self.seg.add(key, value, request.flags, request.ttl, now),
                    Command::Replace => self.seg.replace(key, value, request.flags, request.ttl, now),
                    Command::Cas => self.seg.cas(key, value, request.flags, request.ttl, request.delta, now),
                    _ => match self.seg.set(key, value, request.flags, request.ttl, now) {
                        Ok(c) => StoreResult::Stored(c),
                        Err(e) => StoreResult::Failed(e),
                    },
                };
                let resp = match sr {
                    StoreResult::Stored(_) => Response::Stored,
                    StoreResult::NotStored => Response::NotStored,
                    StoreResult::Exists => Response::Exists,
                    StoreResult::NotFound => Response::NotFound,
                    StoreResult::Failed(_) => Response::Error,
                };
                assert(resp == store_response(sr));
                assert(store_outcome(old_seg, self.seg, request.command, request@.key, request@.value,
                    request.flags, expiry_of(now, request.ttl), now, request.delta, sr));
                let r = reply_bytes(resp, request.noreply);
                let ghost out = if r is Some { Some(r->Some_0@) } else { None::<Seq<u8>> };
                assert(store_outcome(old_seg, self.seg, request@.command, request@.key, request@.value,
                    request@.flags, expiry_of(now, request@.ttl), now, request@.delta, sr));
                assert(out == reply(store_response(sr), request@.noreply));
                assert(store_answered(old_seg, self.seg, request@, now, out));
                r
            },
        }
    }
}

} // verus!
