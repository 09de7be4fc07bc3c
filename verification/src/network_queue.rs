//! Per-channel inbound and outbound message queues.
//!
//! All protocol traffic passes through one [`ResNetworkQueue`]: the
//! schedulers enqueue outbound messages and consume inbound ones, and a
//! sync step at the frame boundary is the only place where whole queues
//! are exchanged with the transport.  Draining preserves the relative
//! order of messages.

use crate::messages::{messages_wf, ChannelId, MessageKind, NetworkMessage};
use vstd::pervasive::VecAdditionalExecFns;
use vstd::prelude::*;

verus! {

/// Whether a message is of the given kind.
pub open spec fn is_kind(m: NetworkMessage, kind: MessageKind) -> bool {
    m.spec_kind() == kind
}

/// Filtering cannot disturb a stricter selection: when everything `q`
/// keeps is also kept by `p`, filtering by `p` first changes nothing
/// about what `q` selects.
pub proof fn lemma_filter_subsumed(
    s: Seq<NetworkMessage>,
    p: spec_fn(NetworkMessage) -> bool,
    q: spec_fn(NetworkMessage) -> bool,
)
    requires
        forall|m: NetworkMessage| #[trigger] q(m) ==> p(m),
    ensures
        s.filter(p).filter(q) == s.filter(q),
    decreases s.len(),
{
    reveal(Seq::filter);
    if s.len() == 0 {
    } else {
        let dl = s.drop_last();
        let last = s.last();
        lemma_filter_subsumed(dl, p, q);
        if p(last) {
            let a = dl.filter(p);
            assert(s.filter(p) == a.push(last));
            assert(a.push(last).drop_last() =~= a);
            assert(a.push(last).last() == last);
            assert(a.push(last).filter(q) == (if q(last) {
                a.filter(q).push(last)
            } else {
                a.filter(q)
            }));
        } else {
            assert(s.filter(p) == dl.filter(p));
            assert(!q(last));
        }
    }
}

/// Per-channel inbound and outbound message lists, indexed by channel.
pub struct ResNetworkQueue {
    inbound: Vec<Vec<NetworkMessage>>,
    outbound: Vec<Vec<NetworkMessage>>,
}

impl ResNetworkQueue {
    /// The messages received from `cid` and not yet consumed, oldest
    /// first.
    pub closed spec fn inbound_of(self, cid: ChannelId) -> Seq<NetworkMessage> {
        if cid.0 < self.inbound@.len() {
            self.inbound@[cid.0 as int]@
        } else {
            Seq::<NetworkMessage>::empty()
        }
    }

    /// The messages queued for `cid` and not yet flushed, oldest first.
    pub closed spec fn outbound_of(self, cid: ChannelId) -> Seq<NetworkMessage> {
        if cid.0 < self.outbound@.len() {
            self.outbound@[cid.0 as int]@
        } else {
            Seq::<NetworkMessage>::empty()
        }
    }

    /// Every queued message is well formed.
    pub closed spec fn wf(self) -> bool {
        &&& forall|i: int|
            0 <= i < self.inbound@.len() ==> messages_wf((#[trigger] self.inbound@[i])@)
        &&& forall|i: int|
            0 <= i < self.outbound@.len() ==> messages_wf((#[trigger] self.outbound@[i])@)
    }

    /// An empty queue.
    pub fn new() -> (r: ResNetworkQueue)
        ensures
            r.wf(),
            forall|cid: ChannelId| #[trigger] r.inbound_of(cid) == Seq::<NetworkMessage>::empty(),
            forall|cid: ChannelId| #[trigger] r.outbound_of(cid) == Seq::<NetworkMessage>::empty(),
    {
        ResNetworkQueue { inbound: Vec::new(), outbound: Vec::new() }
    }

    /// Queues one message for `cid`.
    pub fn send(&mut self, channel_id: &ChannelId, message: NetworkMessage)
        requires
            old(self).wf(),
            message.wf(),
            channel_id.0 < usize::MAX,
        ensures
            final(self).wf(),
            final(self).outbound_of(*channel_id) == old(self).outbound_of(*channel_id).push(
                message,
            ),
            forall|c: ChannelId|
                c != *channel_id ==> #[trigger] final(self).outbound_of(c) == old(
                    self,
                ).outbound_of(c),
            forall|c: ChannelId| #[trigger] final(self).inbound_of(c) == old(self).inbound_of(c),
    {
        let mut one: Vec<NetworkMessage> = Vec::new();
        one.push(message);
        self.send_many(channel_id, one);
        proof {
            assert(old(self).outbound_of(*channel_id) + seq![message] =~= old(self).outbound_of(
                *channel_id,
            ).push(message));
        }
    }

    /// Queues several messages for `cid`, in order.
    pub fn send_many(&mut self, channel_id: &ChannelId, messages: Vec<NetworkMessage>)
        requires
            old(self).wf(),
            messages_wf(messages@),
            channel_id.0 < usize::MAX,
        ensures
            final(self).wf(),
            final(self).outbound_of(*channel_id) == old(self).outbound_of(*channel_id)
                + messages@,
            forall|c: ChannelId|
                c != *channel_id ==> #[trigger] final(self).outbound_of(c) == old(
                    self,
                ).outbound_of(c),
            forall|c: ChannelId| #[trigger] final(self).inbound_of(c) == old(self).inbound_of(c),
    {
        let idx: usize = channel_id.0;
        grow_to(&mut self.outbound, idx);
        let mut entry: Vec<NetworkMessage> = Vec::new();
        self.outbound.set_and_swap(idx, &mut entry);
        let mut incoming = messages;
        entry.append(&mut incoming);
        self.outbound.set(idx, entry);
    }

    /// Appends messages received from `cid` to its inbound queue.
    pub fn on_messages(&mut self, channel_id: ChannelId, messages: Vec<NetworkMessage>)
        requires
            old(self).wf(),
            messages_wf(messages@),
            channel_id.0 < usize::MAX,
        ensures
            final(self).wf(),
            final(self).inbound_of(channel_id) == old(self).inbound_of(channel_id) + messages@,
            forall|c: ChannelId|
                c != channel_id ==> #[trigger] final(self).inbound_of(c) == old(self).inbound_of(
                    c,
                ),
            forall|c: ChannelId| #[trigger] final(self).outbound_of(c) == old(self).outbound_of(c),
    {
        let idx: usize = channel_id.0;
        grow_to(&mut self.inbound, idx);
        let mut entry: Vec<NetworkMessage> = Vec::new();
        self.inbound.set_and_swap(idx, &mut entry);
        let mut incoming = messages;
        entry.append(&mut incoming);
        self.inbound.set(idx, entry);
    }

    /// Removes and returns the inbound messages of `cid` that are of
    /// the given kind, preserving their relative order; the others stay
    /// queued, in order.
    pub fn take_inbound(&mut self, channel_id: &ChannelId, kind: MessageKind) -> (r: Vec<
        NetworkMessage,
    >)
        requires
            old(self).wf(),
        ensures
            final(self).wf(),
            r@ == old(self).inbound_of(*channel_id).filter(|m: NetworkMessage| is_kind(m, kind)),
            final(self).inbound_of(*channel_id) == old(self).inbound_of(*channel_id).filter(
                |m: NetworkMessage| !is_kind(m, kind),
            ),
            forall|c: ChannelId|
                c != *channel_id ==> #[trigger] final(self).inbound_of(c) == old(self).inbound_of(
                    c,
                ),
            forall|c: ChannelId| #[trigger] final(self).outbound_of(c) == old(self).outbound_of(c),
            messages_wf(r@),
    {
        let idx: usize = channel_id.0;
        if idx >= self.inbound.len() {
            proof {
                reveal(Seq::filter);
                assert(old(self).inbound_of(*channel_id) =~= Seq::<NetworkMessage>::empty());
            }
            return Vec::new();
        }
        let mut entry: Vec<NetworkMessage> = Vec::new();
        self.inbound.set_and_swap(idx, &mut entry);
        let ghost all = entry@;
        let mut taken: Vec<NetworkMessage> = Vec::new();
        let mut kept: Vec<NetworkMessage> = Vec::new();
        proof {
            assert(all.skip(0) =~= all);
            reveal(Seq::filter);
            assert(all.take(0).filter(|m: NetworkMessage| is_kind(m, kind)) =~= Seq::<
                NetworkMessage,
            >::empty());
            assert(all.take(0).filter(|m: NetworkMessage| !is_kind(m, kind)) =~= Seq::<
                NetworkMessage,
            >::empty());
        }
        while entry.len() > 0
            invariant
                entry@.len() <= all.len(),
                entry@ == all.skip(all.len() - entry@.len()),
                taken@ == all.take(all.len() - entry@.len()).filter(
                    |m: NetworkMessage| is_kind(m, kind),
                ),
                kept@ == all.take(all.len() - entry@.len()).filter(
                    |m: NetworkMessage| !is_kind(m, kind),
                ),
                messages_wf(all),
                messages_wf(taken@),
                messages_wf(kept@),
            decreases entry@.len(),
        {
            let ghost k = all.len() - entry@.len();
            proof {
                reveal(Seq::filter);
                assert(entry@[0] == all[k as int]);
                assert(all.take(k + 1).drop_last() =~= all.take(k as int));
                assert(all.take(k + 1).last() == all[k as int]);
            }
            let m = entry.remove(0);
            proof {
                assert(entry@ =~= all.skip(k + 1));
            }
            if matches_kind(&m, kind) {
                taken.push(m);
            } else {
                kept.push(m);
            }
        }
        proof {
            assert(all.take(all.len() as int) =~= all);
        }
        self.inbound.set(idx, kept);
        taken
    }

    /// Atomically swaps out every outbound queue for flushing: returns
    /// each channel's pending messages, oldest first, leaving all
    /// outbound queues empty.
    pub fn take_outbound(&mut self) -> (r: Vec<(ChannelId, Vec<NetworkMessage>)>)
        requires
            old(self).wf(),
        ensures
            final(self).wf(),
            forall|c: ChannelId| #[trigger] final(self).outbound_of(c) == Seq::<
                NetworkMessage,
            >::empty(),
            forall|c: ChannelId| #[trigger] final(self).inbound_of(c) == old(self).inbound_of(c),
            forall|i: int, j: int| 0 <= i < j < r@.len() ==> (#[trigger] r@[i]).0 != (#[trigger] r@[j]).0,
            forall|i: int|
                0 <= i < r@.len() ==> (#[trigger] r@[i]).1@ == old(self).outbound_of(r@[i].0)
                    && messages_wf(r@[i].1@),
            forall|c: ChannelId|
                old(self).outbound_of(c).len() > 0 ==> exists|i: int|
                    0 <= i < r@.len() && (#[trigger] r@[i]).0 == c,
    {
        let mut r: Vec<(ChannelId, Vec<NetworkMessage>)> = Vec::new();
        let mut i: usize = 0;
        let ghost oldq = *old(self);
        while i < self.outbound.len()
            invariant
                0 <= i <= self.outbound@.len(),
                self.outbound@.len() == oldq.outbound@.len(),
                self.inbound@ == oldq.inbound@,
                oldq.wf(),
                forall|j: int|
                    0 <= j < i ==> (#[trigger] self.outbound@[j])@ == Seq::<
                        NetworkMessage,
                    >::empty(),
                forall|j: int| i <= j < self.outbound@.len() ==> #[trigger] self.outbound@[j]
                    == oldq.outbound@[j],
                r@.len() == i,
                forall|j: int|
                    0 <= j < i ==> (#[trigger] r@[j]).0 == ChannelId(j as usize) && r@[j].1@
                        == oldq.outbound@[j]@,
            decreases self.outbound@.len() - i,
        {
            let mut entry: Vec<NetworkMessage> = Vec::new();
            self.outbound.set_and_swap(i, &mut entry);
            r.push((ChannelId(i), entry));
            i = i + 1;
        }
        proof {
            let cur = *self;
            assert forall|c: ChannelId| #[trigger] cur.outbound_of(c) == Seq::<
                NetworkMessage,
            >::empty() by {
                if c.0 < cur.outbound@.len() {
                    assert(cur.outbound@[c.0 as int]@ =~= Seq::<NetworkMessage>::empty());
                }
            }
            assert forall|j: int|
                0 <= j < r@.len() implies (#[trigger] r@[j]).1@ == oldq.outbound_of(r@[j].0)
                    && messages_wf(r@[j].1@) by {
                assert(r@[j].0.0 == j);
            }
            assert forall|c: ChannelId|
                oldq.outbound_of(c).len() > 0 implies exists|k: int|
                    0 <= k < r@.len() && (#[trigger] r@[k]).0 == c by {
                assert(c.0 < oldq.outbound@.len());
                assert(r@[c.0 as int].0 == c);
            }
        }
        r
    }
}

/// Extends the per-channel table so that index `idx` exists.
fn grow_to(list: &mut Vec<Vec<NetworkMessage>>, idx: usize)
    requires
        idx < usize::MAX,
        forall|i: int| 0 <= i < old(list)@.len() ==> messages_wf((#[trigger] old(list)@[i])@),
    ensures
        final(list)@.len() > idx,
        forall|i: int|
            0 <= i < old(list)@.len() ==> #[trigger] final(list)@[i] == old(list)@[i],
        forall|i: int|
            old(list)@.len() <= i < final(list)@.len() ==> (#[trigger] final(list)@[i])@ == Seq::<
                NetworkMessage,
            >::empty(),
        forall|i: int| 0 <= i < final(list)@.len() ==> messages_wf((#[trigger] final(list)@[i])@),
        // Growing never drops an entry.
        final(list)@.len() >= old(list)@.len(),
{
    while list.len() <= idx
        invariant
            idx < usize::MAX,
            old(list)@.len() <= list@.len(),
            forall|i: int| 0 <= i < old(list)@.len() ==> #[trigger] list@[i] == old(list)@[i],
            forall|i: int|
                old(list)@.len() <= i < list@.len() ==> (#[trigger] list@[i])@ == Seq::<
                    NetworkMessage,
                >::empty(),
        decreases idx + 1 - list@.len(),
    {
        list.push(Vec::new());
    }
}

/// Whether the message is of the given kind.
fn matches_kind(m: &NetworkMessage, kind: MessageKind) -> (r: bool)
    ensures
        r == is_kind(*m, kind),
{
    m.kind() == kind
}

} // verus!
