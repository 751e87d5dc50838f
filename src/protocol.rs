//! Traits which abstract the wire format away from the server runtime.

use vstd::prelude::*;
use crate::session::{Session, SessionView};

verus! {

/// Line terminator of the text protocol.
pub const CRLF: &'static str = "\r\n";

/// A message that can write its wire form into a session.
pub trait Compose {
    /// The wire form of the message.
    spec fn wire(&self) -> Seq<u8>;

    /// Appends the wire form to the session's outbound buffer.
    fn compose(self, dst: &mut Session)
        requires
            old(dst).wf(),
        ensures
            final(dst).wf(),
            final(dst)@ == (SessionView {
                outbound: old(dst)@.outbound + self.wire(),
                written: old(dst)@.written + self.wire(),
                ..old(dst)@
            }),
    ;
}

/// Applies requests to a storage. `None` means that the client asked for no
/// reply.
pub trait Execute<Request, Response> {
    /// The executor's own well-formedness, kept by every request.
    spec fn ready(&self) -> bool;

    fn execute(&mut self, request: Request) -> (r: Option<Response>)
        requires
            old(self).ready(),
        ensures
            final(self).ready(),
    ;
}

/// Why a buffer did not parse into a message.
#[derive(Debug, PartialEq, Eq, Structural)]
pub enum ParseError {
    /// The bytes can never parse.
    Invalid,
    /// More bytes may complete the message.
    Incomplete,
    /// Well-formed, but not a supported command.
    Unknown,
}

/// A parsed message together with the number of bytes it took.
#[derive(Debug)]
pub struct ParseOk<T> {
    message: T,
    consumed: usize,
}

impl<T> ParseOk<T> {
    /// The parsed message.
    pub closed spec fn message_spec(&self) -> T {
        self.message
    }

    /// The number of bytes the message took.
    pub closed spec fn consumed_spec(&self) -> usize {
        self.consumed
    }

    pub fn new(message: T, consumed: usize) -> (r: Self)
        ensures
            r.message_spec() == message,
            r.consumed_spec() == consumed,
    {
        Self { message, consumed }
    }

    pub fn into_inner(self) -> (r: T)
        ensures
            r == self.message_spec(),
    {
        self.message
    }

    pub fn consumed(&self) -> (r: usize)
        ensures
            r == self.consumed_spec(),
    {
        self.consumed
    }
}

/// Parses messages of type `T` out of the front of a byte buffer.
pub trait Parse<T> {
    /// Parses one message from the start of `buffer`. On success the message
    /// took the first `consumed()` bytes of the buffer.
    fn parse(&self, buffer: &[u8]) -> (r: Result<ParseOk<T>, ParseError>)
        ensures
            r matches Ok(ok) ==> 0 < ok.consumed_spec() <= buffer@.len(),
    ;
}

} // verus!
