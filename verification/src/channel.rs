//! An in-memory pair of message channels.
//!
//! The transport the core assumes is a reliable, ordered,
//! message-framed link.  This module provides the mandatory in-memory
//! realization: two endpoints, `left` and `right`, with cross-linked
//! buffers, so that what one side sends is exactly what the other
//! side's next drain returns.  Because `send` appends and `drain`
//! empties the whole buffer in order, two sends from one side are
//! always observed by the other side in send order.

use crate::messages::{messages_wf, NetworkMessage};
use vstd::prelude::*;

verus! {

/// Two cross-linked in-memory channel endpoints.
pub struct ChannelPair {
    left_inbox: Vec<NetworkMessage>,
    right_inbox: Vec<NetworkMessage>,
}

impl ChannelPair {
    /// What the left endpoint will receive on its next drain, in
    /// delivery order.
    pub closed spec fn pending_for_left(self) -> Seq<NetworkMessage> {
        self.left_inbox@
    }

    /// What the right endpoint will receive on its next drain, in
    /// delivery order.
    pub closed spec fn pending_for_right(self) -> Seq<NetworkMessage> {
        self.right_inbox@
    }

    /// Everything pending is well formed.
    pub closed spec fn wf(self) -> bool {
        messages_wf(self.left_inbox@) && messages_wf(self.right_inbox@)
    }

    /// A fresh pair with nothing in flight.
    pub fn new() -> (r: ChannelPair)
        ensures
            r.wf(),
            r.pending_for_left() == Seq::<NetworkMessage>::empty(),
            r.pending_for_right() == Seq::<NetworkMessage>::empty(),
    {
        ChannelPair { left_inbox: Vec::new(), right_inbox: Vec::new() }
    }

    /// The left endpoint sends: the messages are appended, in order,
    /// to what the right endpoint will drain.  Two sends are therefore
    /// delivered in send order, each with its own messages in order.
    pub fn send_from_left(&mut self, messages: Vec<NetworkMessage>)
        requires
            old(self).wf(),
            messages_wf(messages@),
        ensures
            final(self).wf(),
            final(self).pending_for_right() == old(self).pending_for_right() + messages@,
            final(self).pending_for_left() == old(self).pending_for_left(),
    {
        let mut incoming = messages;
        self.right_inbox.append(&mut incoming);
    }

    /// The right endpoint sends, symmetrically.
    pub fn send_from_right(&mut self, messages: Vec<NetworkMessage>)
        requires
            old(self).wf(),
            messages_wf(messages@),
        ensures
            final(self).wf(),
            final(self).pending_for_left() == old(self).pending_for_left() + messages@,
            final(self).pending_for_right() == old(self).pending_for_right(),
    {
        let mut incoming = messages;
        self.left_inbox.append(&mut incoming);
    }

    /// The left endpoint drains: everything received since its last
    /// drain, in delivery order; the buffer is left empty.
    pub fn drain_left(&mut self) -> (r: Vec<NetworkMessage>)
        requires
            old(self).wf(),
        ensures
            final(self).wf(),
            r@ == old(self).pending_for_left(),
            messages_wf(r@),
            final(self).pending_for_left() == Seq::<NetworkMessage>::empty(),
            final(self).pending_for_right() == old(self).pending_for_right(),
    {
        let mut out: Vec<NetworkMessage> = Vec::new();
        core::mem::swap(&mut self.left_inbox, &mut out);
        out
    }

    /// The right endpoint drains, symmetrically.
    pub fn drain_right(&mut self) -> (r: Vec<NetworkMessage>)
        requires
            old(self).wf(),
        ensures
            final(self).wf(),
            r@ == old(self).pending_for_right(),
            messages_wf(r@),
            final(self).pending_for_right() == Seq::<NetworkMessage>::empty(),
            final(self).pending_for_left() == old(self).pending_for_left(),
    {
        let mut out: Vec<NetworkMessage> = Vec::new();
        core::mem::swap(&mut self.right_inbox, &mut out);
        out
    }
}

} // verus!
