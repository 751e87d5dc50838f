//! The poller's table of registered sessions, keyed by token. A token names
//! one slot; it stays valid until its session is removed, and is never one of
//! the reserved tokens of the accepting socket and the waker.

use vstd::prelude::*;
use crate::listener::{LISTENER_TOKEN, WAKER_TOKEN};

verus! {

/// Why a table operation failed.
#[derive(Debug, Clone, Copy, PartialEq, Eq, Structural)]
pub enum TableError {
    /// No session is registered under the token.
    NotFound,
    /// Every token is taken.
    Full,
}

pub struct SessionTable<T> {
    slots: Vec<Option<T>>,
}

impl<T> View for SessionTable<T> {
    type V = Map<usize, T>;

    /// The registered sessions by token.
    closed spec fn view(&self) -> Map<usize, T> {
        Map::new(
            |k: usize| (k as int) < self.slots@.len() && self.slots@[k as int] is Some,
            |k: usize| self.slots@[k as int]->Some_0,
        )
    }
}

impl<T> SessionTable<T> {
    pub closed spec fn wf(&self) -> bool {
        self.slots@.len() <= LISTENER_TOKEN
    }

    pub fn new() -> (r: SessionTable<T>)
        ensures
            r.wf(),
            r@ == Map::<usize, T>::empty(),
    {
        let r = SessionTable { slots: Vec::new() };
        assert(r@ =~= Map::<usize, T>::empty());
        r
    }

    /// Registers a session under a free token and returns the token. Fails,
    /// handing the session back, only when every token is taken.
    pub fn add_session(&mut self, session: T) -> (r: Result<usize, T>)
        requires
            old(self).wf(),
        ensures
            final(self).wf(),
            r matches Ok(token) ==> {
                &&& !old(self)@.contains_key(token)
                &&& token != LISTENER_TOKEN && token != WAKER_TOKEN
                &&& final(self)@ == old(self)@.insert(token, session)
            },
            r matches Err(s) ==> s == session && final(self)@ == old(self)@,
            r is Err <==> forall|k: usize| k < LISTENER_TOKEN ==> old(self)@.contains_key(k),
    {
        let mut i: usize = 0;
        while i < self.slots.len()
            invariant
                *self == *old(self),
                i <= self.slots@.len(),
                self.slots@.len() <= LISTENER_TOKEN,
                forall|j: int| 0 <= j < i ==> #[trigger] self.slots@[j] is Some,
            decreases self.slots@.len() - i,
        {
            if self.slots[i].is_none() {
                let ghost before = self@;
                self.slots.set(i, Some(session));
                assert(self@ =~= before.insert(i, session));
                assert(!before.contains_key(i));
                return Ok(i);
            }
            i = i + 1;
        }
        if self.slots.len() >= LISTENER_TOKEN {
            assert forall|k: usize| k < LISTENER_TOKEN implies self@.contains_key(k) by {
                assert(self.slots@[k as int] is Some);
            }
            return Err(session);
        }
        let ghost before = self@;
        let token = self.slots.len();
        self.slots.push(Some(session));
        assert(self@ =~= before.insert(token, session));
        assert(!before.contains_key(token));
        Ok(token)
    }

    /// Removes the session registered under `token` and hands it back.
    pub fn remove_session(&mut self, token: usize) -> (r: Result<T, TableError>)
        requires
            old(self).wf(),
        ensures
            final(self).wf(),
            old(self)@.contains_key(token) ==> r == Ok::<T, TableError>(old(self)@[token])
                && final(self)@ == old(self)@.remove(token),
            !old(self)@.contains_key(token) ==> r == Err::<T, TableError>(TableError::NotFound)
                && final(self)@ == old(self)@,
    {
        if token >= self.slots.len() || self.slots[token].is_none() {
            return Err(TableError::NotFound);
        }
        let ghost before = self@;
        let mut taken: Option<T> = None;
        self.slots.set_and_swap(token, &mut taken);
        assert(self@ =~= before.remove(token));
        match taken {
            Some(s) => Ok(s),
            None => Err(TableError::NotFound),
        }
    }

    /// The session registered under `token`.
    pub fn get_session(&self, token: usize) -> (r: Result<&T, TableError>)
        ensures
            self@.contains_key(token) ==> (r matches Ok(s) && *s == self@[token]),
            !self@.contains_key(token) ==> r == Err::<&T, TableError>(TableError::NotFound),
    {
        if token >= self.slots.len() {
            return Err(TableError::NotFound);
        }
        match &self.slots[token] {
            Some(s) => Ok(s),
            None => Err(TableError::NotFound),
        }
    }
}

} // verus!
