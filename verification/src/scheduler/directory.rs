//! Inboxes by flow.
//!
//! A capability leads to a flow identity, and this table from there to the
//! inbox. A flow that is not in it is gone.

use vstd::prelude::*;

use crate::idmap::IdMap;
use crate::scheduler::error::RuntimeError;
use crate::scheduler::mailbox::{Mailbox, MailboxState};
use crate::scheduler::process::FlowId;

verus! {

/// Models of the values of a table.
pub open spec fn views<V: View>(m: Map<u128, V>) -> Map<u128, V::V> {
    m.map_values(|v: V| v@)
}

/// Inboxes of the live flows.
pub struct Directory {
    pub boxes: IdMap<Mailbox>,
}

impl View for Directory {
    type V = Map<u128, MailboxState>;

    open spec fn view(&self) -> Map<u128, MailboxState> {
        views(self.boxes@)
    }
}

impl Directory {
    pub fn new() -> (r: Self)
        ensures
            r@ == Map::<u128, MailboxState>::empty(),
    {
        let r = Directory { boxes: IdMap::new() };
        assert(r@ =~= Map::<u128, MailboxState>::empty());
        r
    }

    /// Add the inbox of a new flow.
    pub fn register(&mut self, id: FlowId, mailbox: Mailbox) -> (r: Result<(), RuntimeError>)
        ensures
            if old(self)@.contains_key(id.raw as u128) {
                r == Err::<(), RuntimeError>(RuntimeError::DuplicateFlowId) && final(self)@ == old(
                    self,
                )@
            } else {
                r is Ok && final(self)@ == old(self)@.insert(id.raw as u128, mailbox@)
            },
    {
        if self.boxes.contains(id.raw as u128) {
            return Err(RuntimeError::DuplicateFlowId);
        }
        let _ = self.boxes.insert(id.raw as u128, mailbox);
        assert(self@ =~= old(self)@.insert(id.raw as u128, mailbox@));
        Ok(())
    }

    /// Drop the inbox of a flow, if it has one.
    pub fn unregister(&mut self, id: FlowId)
        ensures
            final(self)@ == old(self)@.remove(id.raw as u128),
    {
        let _ = self.boxes.remove(id.raw as u128);
        assert(self@ =~= old(self)@.remove(id.raw as u128));
    }

    /// The inbox of a flow; none when the flow is gone.
    pub fn lookup(&self, id: FlowId) -> (r: Option<&Mailbox>)
        ensures
            match r {
                Some(m) => self@.contains_key(id.raw as u128) && m@ == self@[id.raw as u128],
                None => !self@.contains_key(id.raw as u128),
            },
    {
        self.boxes.get(id.raw as u128)
    }

    pub fn len(&self) -> (r: usize)
        ensures
            r == self@.len(),
            self@.dom().finite(),
    {
        let n: usize = self.boxes.len();
        assert(self@.dom() =~= self.boxes@.dom());
        n
    }

    /// Take the inbox of a flow out, to be put back.
    pub fn take(&mut self, id: FlowId) -> (r: Option<Mailbox>)
        ensures
            final(self)@ == old(self)@.remove(id.raw as u128),
            match r {
                Some(m) => old(self)@.contains_key(id.raw as u128) && m@ == old(
                    self,
                )@[id.raw as u128],
                None => !old(self)@.contains_key(id.raw as u128),
            },
    {
        let m = self.boxes.remove(id.raw as u128);
        assert(self@ =~= old(self)@.remove(id.raw as u128));
        m
    }

    /// Put the inbox of a flow back.
    pub fn put(&mut self, id: FlowId, mailbox: Mailbox)
        ensures
            final(self)@ == old(self)@.insert(id.raw as u128, mailbox@),
    {
        let _ = self.boxes.insert(id.raw as u128, mailbox);
        assert(self@ =~= old(self)@.insert(id.raw as u128, mailbox@));
    }
}

impl Default for Directory {
    fn default() -> (r: Self)
        ensures
            r@ == Map::<u128, MailboxState>::empty(),
    {
        Directory::new()
    }
}

} // verus!
