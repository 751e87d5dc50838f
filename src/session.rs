//! A buffered bidirectional byte stream for one client connection. The socket
//! itself stays with the caller: it hands in the bytes it read and reports how
//! many pending bytes the socket accepted.

use vstd::prelude::*;

verus! {

/// Why a session could not take in more bytes.
#[derive(Debug, PartialEq, Eq, Structural)]
pub enum SessionError {
    /// The inbound buffer would grow past its limit.
    BufferFull,
    /// The peer hung up.
    Closed,
}

/// Appends `src` to the end of `dst`.
pub fn append_bytes(dst: &mut Vec<u8>, src: &[u8])
    ensures
        final(dst)@ == old(dst)@ + src@,
{
    let ghost start = dst@;
    let mut i: usize = 0;
    while i < src.len()
        invariant
            i <= src@.len(),
            dst@ == start + src@.subrange(0, i as int),
        decreases src@.len() - i,
    {
        dst.push(src[i]);
        i = i + 1;
        assert(dst@ =~= start + src@.subrange(0, i as int));
    }
    assert(src@.subrange(0, i as int) =~= src@);
}

/// Abstract state of a session.
pub ghost struct SessionView {
    /// Bytes received and not yet consumed by a parser.
    pub inbound: Seq<u8>,
    /// Bytes appended and not yet handed to the wire.
    pub outbound: Seq<u8>,
    /// Every byte ever appended to the outbound side, in order.
    pub written: Seq<u8>,
    /// Every byte ever handed to the wire, in order.
    pub sent: Seq<u8>,
    /// Limit on the size of the inbound buffer.
    pub max_buffer_size: nat,
}

pub struct Session {
    inbound: Vec<u8>,
    outbound: Vec<u8>,
    written: Ghost<Seq<u8>>,
    sent: Ghost<Seq<u8>>,
    max_buffer_size: usize,
}

impl View for Session {
    type V = SessionView;

    closed spec fn view(&self) -> SessionView {
        SessionView {
            inbound: self.inbound@,
            outbound: self.outbound@,
            written: self.written@,
            sent: self.sent@,
            max_buffer_size: self.max_buffer_size as nat,
        }
    }
}

impl Session {
    /// The inbound buffer stays within its limit, and what went to the wire
    /// followed by what is still pending is exactly what was appended.
    pub open spec fn wf(&self) -> bool {
        &&& self@.inbound.len() <= self@.max_buffer_size
        &&& self@.sent + self@.outbound == self@.written
    }

    /// An empty session whose inbound buffer may hold up to `max_buffer_size`
    /// bytes.
    pub fn with_capacity(max_buffer_size: usize) -> (r: Session)
        ensures
            r.wf(),
            r@.inbound == Seq::<u8>::empty(),
            r@.outbound == Seq::<u8>::empty(),
            r@.written == Seq::<u8>::empty(),
            r@.sent == Seq::<u8>::empty(),
            r@.max_buffer_size == max_buffer_size,
    {
        Session {
            inbound: Vec::new(),
            outbound: Vec::new(),
            written: Ghost(Seq::empty()),
            sent: Ghost(Seq::empty()),
            max_buffer_size,
        }
    }

    /// Takes in bytes read from the socket. An empty read means the peer hung
    /// up; a read that would grow the buffer past its limit is refused whole.
    pub fn fill(&mut self, data: &[u8]) -> (r: Result<usize, SessionError>)
        requires
            old(self).wf(),
        ensures
            final(self).wf(),
            data@.len() == 0 ==> r == Err::<usize, SessionError>(SessionError::Closed),
            data@.len() > 0 && old(self)@.inbound.len() + data@.len() > old(self)@.max_buffer_size
                ==> r == Err::<usize, SessionError>(SessionError::BufferFull),
            data@.len() > 0 && old(self)@.inbound.len() + data@.len() <= old(self)@.max_buffer_size
                ==> r == Ok::<usize, SessionError>(data@.len() as usize),
            r is Ok ==> final(self)@ == (SessionView { inbound: old(self)@.inbound + data@, ..old(self)@ }),
            r is Err ==> final(self)@ == old(self)@,
    {
        if data.len() == 0 {
            return Err(SessionError::Closed);
        }
        if data.len() > self.max_buffer_size - self.inbound.len() {
            return Err(SessionError::BufferFull);
        }
        append_bytes(&mut self.inbound, data);
        Ok(data.len())
    }

    /// The received bytes not yet consumed.
    pub fn buffer(&self) -> (r: &[u8])
        ensures
            r@ == self@.inbound,
    {
        self.inbound.as_slice()
    }

    /// Drops the first `n` received bytes, after a parse took them.
    pub fn consume(&mut self, n: usize)
        requires
            old(self).wf(),
            n <= old(self)@.inbound.len(),
        ensures
            final(self).wf(),
            final(self)@ == (SessionView {
                inbound: old(self)@.inbound.subrange(n as int, old(self)@.inbound.len() as int),
                ..old(self)@
            }),
    {
        let rest = self.inbound.split_off(n);
        self.inbound = rest;
    }

    /// Appends bytes to the outbound buffer.
    pub fn write(&mut self, bytes: &[u8])
        requires
            old(self).wf(),
        ensures
            final(self).wf(),
            final(self)@ == (SessionView {
                outbound: old(self)@.outbound + bytes@,
                written: old(self)@.written + bytes@,
                ..old(self)@
            }),
    {
        append_bytes(&mut self.outbound, bytes);
        proof {
            self.written@ = self.written@ + bytes@;
            assert(self.sent@ + self.outbound@ =~= self.written@);
        }
    }

    /// The appended bytes not yet on the wire, oldest first.
    pub fn pending(&self) -> (r: &[u8])
        ensures
            r@ == self@.outbound,
    {
        self.outbound.as_slice()
    }

    /// Records that the socket accepted the first `sent` pending bytes, and
    /// returns how many bytes remain pending.
    pub fn flush(&mut self, sent: usize) -> (r: usize)
        requires
            old(self).wf(),
            sent <= old(self)@.outbound.len(),
        ensures
            final(self).wf(),
            final(self)@ == (SessionView {
                outbound: old(self)@.outbound.subrange(sent as int, old(self)@.outbound.len() as int),
                sent: old(self)@.sent + old(self)@.outbound.subrange(0, sent as int),
                ..old(self)@
            }),
            r == final(self)@.outbound.len(),
    {
        let ghost out0 = self.outbound@;
        let rest = self.outbound.split_off(sent);
        self.outbound = rest;
        proof {
            self.sent@ = self.sent@ + out0.subrange(0, sent as int);
            assert(out0 =~= out0.subrange(0, sent as int) + self.outbound@);
            assert(self.sent@ + self.outbound@ =~= self.written@);
        }
        self.outbound.len()
    }

    /// The limit on the size of the inbound buffer.
    pub fn max_buffer_size(&self) -> (r: usize)
        ensures
            r == self@.max_buffer_size,
    {
        self.max_buffer_size
    }
}

/// Bytes reach the wire in the order they were appended: on a well-formed
/// session, everything sent so far is a prefix of everything written.
pub proof fn lemma_wire_order(s: &Session)
    requires
        s.wf(),
    ensures
        s@.sent.len() <= s@.written.len(),
        s@.sent == s@.written.subrange(0, s@.sent.len() as int),
{
    assert(s@.written.subrange(0, s@.sent.len() as int) =~= s@.sent);
}

} // verus!
