//! Decisions of the listener thread: what to do with an accepted connection,
//! in which order to serve a handshaking session's readiness flags, where a
//! poll event goes, and when the loop ends. The caller owns the sockets, the
//! poller and the queues; it performs each decision and reports the result.

use vstd::prelude::*;

verus! {

/// Token of the accepting socket.
pub const LISTENER_TOKEN: usize = usize::MAX - 1;

/// Token of the cross-thread waker.
pub const WAKER_TOKEN: usize = usize::MAX;

/// Default size of a session's buffers.
pub const DEFAULT_BUFFER_SIZE: usize = 16384;

/// How a TLS accept on a fresh connection ended.
#[derive(Debug, Clone, Copy, PartialEq, Eq, Structural)]
pub enum TlsAccept {
    /// The handshake finished during accept.
    Established,
    /// The handshake needs more bytes or events.
    WouldBlock,
    /// The handshake failed for good.
    Failed,
}

/// How a handshake step on a registered session ended.
#[derive(Debug, Clone, Copy, PartialEq, Eq, Structural)]
pub enum Handshake {
    /// The handshake finished.
    Complete,
    /// More bytes or events are needed.
    WouldBlock,
    /// The handshake failed for good.
    Fatal,
}

/// What to do with a registered session after a handshake step.
#[derive(Debug, Clone, Copy, PartialEq, Eq, Structural)]
pub enum HandshakeAction {
    /// Take it off the listener's poller and hand it to a worker.
    HandOff,
    /// Leave it registered for the next event.
    Keep,
    /// Take it off the poller and drop it.
    Drop,
}

/// What to do with a freshly accepted connection.
#[derive(Debug, Clone, Copy, PartialEq, Eq, Structural)]
pub enum AcceptAction {
    /// Wrap it as a plain session and hand it to a worker.
    HandoffPlain,
    /// Wrap it as an established TLS session and hand it to a worker.
    HandoffTls,
    /// Register it on the listener's poller to go on with the handshake.
    RegisterHandshake,
    /// Drop the connection.
    Drop,
}

/// One thing to do for an event on a handshaking session, in order.
#[derive(Debug, Clone, Copy, PartialEq, Eq, Structural)]
pub enum EventStep {
    HandleError,
    Write,
    Read,
    Handshake,
}

/// Where an event goes.
#[derive(Debug, Clone, Copy, PartialEq, Eq, Structural)]
pub enum Dispatch {
    /// Accept one connection.
    Accept,
    /// Drain the signal queue.
    Signals,
    /// Serve a handshaking session.
    Session,
}

/// A signal sent to every thread.
#[derive(Debug, Clone, Copy, PartialEq, Eq, Structural)]
pub enum Signal {
    FlushAll,
    Shutdown,
}

/// The accept-error counter after one more error; it wraps like a metric.
pub open spec fn bump(count: u64) -> u64 {
    if count == u64::MAX {
        0
    } else {
        (count + 1) as u64
    }
}

/// The accept-error counter after `n` more errors.
pub open spec fn bumped(count: u64, n: nat) -> u64
    decreases n,
{
    if n == 0 {
        count
    } else {
        bump(bumped(count, (n - 1) as nat))
    }
}

/// The decision for a fresh connection: `tls` is `None` when TLS is not
/// configured, else how the TLS accept ended.
pub open spec fn accept_decision(tls: Option<TlsAccept>) -> AcceptAction {
    match tls {
        None => AcceptAction::HandoffPlain,
        Some(TlsAccept::Established) => AcceptAction::HandoffTls,
        Some(TlsAccept::WouldBlock) => AcceptAction::RegisterHandshake,
        Some(TlsAccept::Failed) => AcceptAction::Drop,
    }
}

/// Number of `false` entries: the hand-offs that did not go through.
pub open spec fn failures(results: Seq<bool>) -> nat
    decreases results.len(),
{
    if results.len() == 0 {
        0
    } else {
        failures(results.drop_last()) + if results.last() { 0nat } else { 1nat }
    }
}

/// The counter after recording each of `results` in turn.
pub open spec fn errors_after(count: u64, results: Seq<bool>) -> u64
    decreases results.len(),
{
    if results.len() == 0 {
        count
    } else {
        let c = errors_after(count, results.drop_last());
        if results.last() {
            c
        } else {
            bump(c)
        }
    }
}

/// The listener's own state: whether TLS is configured, the accept-error
/// counter, and whether a shutdown was seen.
pub struct Listener {
    tls: bool,
    accept_errors: u64,
    stopped: bool,
}

impl Listener {
    pub closed spec fn tls_spec(&self) -> bool {
        self.tls
    }

    pub closed spec fn accept_errors_spec(&self) -> u64 {
        self.accept_errors
    }

    pub closed spec fn stopped_spec(&self) -> bool {
        self.stopped
    }

    /// A listener with a zero counter that has not seen a shutdown.
    pub fn new(tls: bool) -> (r: Listener)
        ensures
            r.tls_spec() == tls,
            r.accept_errors_spec() == 0,
            !r.stopped_spec(),
    {
        Listener { tls, accept_errors: 0, stopped: false }
    }

    pub fn tls(&self) -> (r: bool)
        ensures
            r == self.tls_spec(),
    {
        self.tls
    }

    pub fn accept_errors(&self) -> (r: u64)
        ensures
            r == self.accept_errors_spec(),
    {
        self.accept_errors
    }

    pub fn stopped(&self) -> (r: bool)
        ensures
            r == self.stopped_spec(),
    {
        self.stopped
    }

    fn count_error(&mut self)
        ensures
            final(self).accept_errors_spec() == bump(old(self).accept_errors_spec()),
            final(self).tls_spec() == old(self).tls_spec(),
            final(self).stopped_spec() == old(self).stopped_spec(),
    {
        if self.accept_errors == u64::MAX {
            self.accept_errors = 0;
        } else {
            self.accept_errors = self.accept_errors + 1;
        }
    }

    /// Decides what to do with one accepted connection. `tls` is how the TLS
    /// accept ended; it is read only when TLS is configured. A dropped
    /// connection is counted as an accept error.
    pub fn do_accept(&mut self, tls: TlsAccept) -> (r: AcceptAction)
        ensures
            r == accept_decision(if old(self).tls_spec() { Some(tls) } else { None }),
            final(self).accept_errors_spec() == if r == AcceptAction::Drop {
                bump(old(self).accept_errors_spec())
            } else {
                old(self).accept_errors_spec()
            },
            final(self).tls_spec() == old(self).tls_spec(),
            final(self).stopped_spec() == old(self).stopped_spec(),
    {
        if !self.tls {
            return AcceptAction::HandoffPlain;
        }
        match tls {
            TlsAccept::Established => AcceptAction::HandoffTls,
            TlsAccept::WouldBlock => AcceptAction::RegisterHandshake,
            TlsAccept::Failed => {
                self.count_error();
                AcceptAction::Drop
            },
        }
    }

    /// Records whether a session reached its destination: a worker's queue,
    /// or the listener's poller. One that did not is dropped and counted.
    pub fn record_handoff(&mut self, delivered: bool)
        ensures
            final(self).accept_errors_spec() == errors_after(
                old(self).accept_errors_spec(),
                seq![delivered],
            ),
            final(self).tls_spec() == old(self).tls_spec(),
            final(self).stopped_spec() == old(self).stopped_spec(),
    {
        proof {
            reveal_with_fuel(errors_after, 2);
        }
        if !delivered {
            self.count_error();
        }
    }

    /// Decides on a registered session after a handshake step. A failed
    /// handshake drops the session and is counted as an accept error.
    pub fn after_handshake(&mut self, step: Handshake) -> (r: HandshakeAction)
        ensures
            step == Handshake::Complete ==> r == HandshakeAction::HandOff,
            step == Handshake::WouldBlock ==> r == HandshakeAction::Keep,
            step == Handshake::Fatal ==> r == HandshakeAction::Drop,
            final(self).accept_errors_spec() == if step == Handshake::Fatal {
                bump(old(self).accept_errors_spec())
            } else {
                old(self).accept_errors_spec()
            },
            final(self).tls_spec() == old(self).tls_spec(),
            final(self).stopped_spec() == old(self).stopped_spec(),
    {
        match step {
            Handshake::Complete => HandshakeAction::HandOff,
            Handshake::WouldBlock => HandshakeAction::Keep,
            Handshake::Fatal => {
                self.count_error();
                HandshakeAction::Drop
            },
        }
    }

    /// Takes the signals drained from the signal queue, oldest first. A
    /// shutdown stops the listener; a flush is for the storage and is
    /// ignored here. Returns whether the loop must end.
    pub fn handle_signals(&mut self, signals: &[Signal]) -> (r: bool)
        ensures
            r == (exists|i: int| 0 <= i < signals@.len() && signals@[i] == Signal::Shutdown),
            final(self).stopped_spec() == (old(self).stopped_spec() || r),
            final(self).tls_spec() == old(self).tls_spec(),
            final(self).accept_errors_spec() == old(self).accept_errors_spec(),
    {
        let mut i: usize = 0;
        while i < signals.len()
            invariant
                i <= signals@.len(),
                forall|j: int| 0 <= j < i ==> signals@[j] != Signal::Shutdown,
                *self == *old(self),
            decreases signals@.len() - i,
        {
            if signals[i] == Signal::Shutdown {
                self.stopped = true;
                return true;
            }
            i = i + 1;
        }
        false
    }
}

/// Where an event with `token` goes.
pub fn dispatch(token: usize) -> (r: Dispatch)
    ensures
        token == LISTENER_TOKEN ==> r == Dispatch::Accept,
        token == WAKER_TOKEN ==> r == Dispatch::Signals,
        token != LISTENER_TOKEN && token != WAKER_TOKEN ==> r == Dispatch::Session,
{
    if token == LISTENER_TOKEN {
        Dispatch::Accept
    } else if token == WAKER_TOKEN {
        Dispatch::Signals
    } else {
        Dispatch::Session
    }
}

/// The steps for an event on a handshaking session, in order: error first,
/// then write before read (so the outbound side drains before it grows),
/// and the handshake attempt last, whatever the flags.
pub fn session_event_steps(is_error: bool, is_writable: bool, is_readable: bool) -> (r: Vec<
    EventStep,
>)
    ensures
        r@ == (if is_error { seq![EventStep::HandleError] } else { Seq::empty() }) + (if is_writable {
            seq![EventStep::Write]
        } else {
            Seq::empty()
        }) + (if is_readable { seq![EventStep::Read] } else { Seq::empty() }) + seq![
            EventStep::Handshake,
        ],
{
    let mut steps: Vec<EventStep> = Vec::new();
    if is_error {
        steps.push(EventStep::HandleError);
    }
    if is_writable {
        steps.push(EventStep::Write);
    }
    if is_readable {
        steps.push(EventStep::Read);
    }
    steps.push(EventStep::Handshake);
    assert(steps@ =~= (if is_error { seq![EventStep::HandleError] } else { Seq::empty() }) + (
    if is_writable {
        seq![EventStep::Write]
    } else {
        Seq::empty()
    }) + (if is_readable { seq![EventStep::Read] } else { Seq::empty() }) + seq![
        EventStep::Handshake,
    ]);
    steps
}

/// Size limit of a session's inbound buffer: at least twice the segment
/// size, and never below the default buffer size.
pub fn max_buffer_size(segment_size: u32) -> (r: usize)
    requires
        2 * segment_size <= usize::MAX,
    ensures
        r == if 2 * segment_size > DEFAULT_BUFFER_SIZE {
            2 * segment_size
        } else {
            DEFAULT_BUFFER_SIZE as int
        },
{
    let twice: usize = 2 * (segment_size as usize);
    if twice > DEFAULT_BUFFER_SIZE {
        twice
    } else {
        DEFAULT_BUFFER_SIZE
    }
}

/// Every connection that fails to be handed off is counted exactly once:
/// after recording a run of hand-off results, the accept-error counter has
/// moved by the number of failures.
pub proof fn lemma_drops_counted(count: u64, results: Seq<bool>)
    ensures
        errors_after(count, results) == bumped(count, failures(results)),
    decreases results.len(),
{
    if results.len() > 0 {
        lemma_drops_counted(count, results.drop_last());
    }
}

/// Hand-off results of a burst of `n` connections into a queue with room for
/// `free` more sessions and no consumer meanwhile: the first `free` go through.
pub open spec fn burst_results(free: nat, n: nat) -> Seq<bool> {
    Seq::new(n, |i: int| i < free)
}

/// In such a burst exactly `n - free` connections are dropped (none when
/// `n <= free`), and the accept-error counter moves by exactly that many.
pub proof fn lemma_burst_drops(count: u64, free: nat, n: nat)
    ensures
        failures(burst_results(free, n)) == if n > free { (n - free) as nat } else { 0nat },
        errors_after(count, burst_results(free, n)) == bumped(count, failures(burst_results(free, n))),
    decreases n,
{
    if n > 0 {
        assert(burst_results(free, n).drop_last() =~= burst_results(free, (n - 1) as nat));
        lemma_burst_drops(count, free, (n - 1) as nat);
    }
    lemma_drops_counted(count, burst_results(free, n));
}

} // verus!
