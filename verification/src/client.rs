//! The client's per-frame scheduling and its side of the join
//! handshake.
//!
//! A client forwards its drained local actions to the host, applies the
//! host's finalized ticks strictly in order, and while it is still
//! waiting for the world snapshot it buffers finalizations instead of
//! applying them.

use crate::actions::{actions_wf, Action, ResActionQueue};
use crate::messages::{
    message_views, messages_wf, ChannelId, MessageKind, MessageView, NetworkMessage, WorldLoad,
};
use crate::network_queue::{is_kind, ResNetworkQueue};
use crate::tick_queue::{QueueSlotState, ResTickQueue, TickQueueError, SLOT_COUNT};
use vstd::prelude::*;

verus! {

/// The client's join lifecycle.
#[derive(Clone, Copy, PartialEq, Eq, Structural, Debug)]
pub enum ClientJoinState {
    /// Not a client of another session.
    NonClient,
    /// Must send the hello ping to the host.
    NeedsSendInitialPing,
    /// Waiting for the host to send the world.
    WaitingForWorld,
    /// In lockstep with the host.
    Connected,
}

/// The client's link to the host.
pub struct ConnectionToHost {
    /// The channel that reaches the host.
    pub channel_id: ChannelId,
    /// Finalizations received while the world was still being loaded,
    /// in arrival order.
    pub buffered_messages: Vec<NetworkMessage>,
}

impl ConnectionToHost {
    /// Buffered messages are finalizations and well formed.
    pub open spec fn wf(self) -> bool {
        &&& messages_wf(self.buffered_messages@)
        &&& forall|i: int|
            0 <= i < self.buffered_messages@.len() ==> is_kind(
                #[trigger] self.buffered_messages@[i],
                MessageKind::FinalizedTick,
            )
    }

    /// A fresh link with nothing buffered.
    pub fn new(channel_id: ChannelId) -> (r: ConnectionToHost)
        ensures
            r.channel_id == channel_id,
            r.buffered_messages@ == Seq::<NetworkMessage>::empty(),
            r.wf(),
    {
        ConnectionToHost { channel_id, buffered_messages: Vec::new() }
    }
}

/// `msgs` is the host's contiguous finalization stream for the ticks
/// `from`, `from + 1`, ...: exactly one `FinalizedTick` per tick, in
/// order.
pub open spec fn is_finalization_stream(msgs: Seq<NetworkMessage>, from: int) -> bool {
    forall|i: int|
        0 <= i < msgs.len() ==> (#[trigger] msgs[i] matches NetworkMessage::FinalizedTick {
            tick,
            ..
        } && tick == from + i)
}

/// The action payload of the `i`-th message of a finalization stream.
pub open spec fn stream_actions(msgs: Seq<NetworkMessage>, i: int) -> Seq<Action> {
    match msgs[i] {
        NetworkMessage::FinalizedTick { actions, .. } => actions@,
        _ => Seq::<Action>::empty(),
    }
}

/// Applies a batch of `FinalizedTick` messages to the tick queue,
/// strictly in order.
///
/// This is where the host's choice becomes binding: when `msgs` is the
/// host's contiguous stream for the ticks right after this queue's
/// finalization horizon and the ring has room, every message `i` lands
/// its actions at exactly the tick the host chose, the horizon
/// advances over the whole batch, and nothing else changes.  Anything
/// else — a gap, a repeated tick, a non-finalization message, a tick
/// beyond the ring — is refused with the queue's error, and the
/// remaining messages are dropped (the session treats this as a fatal
/// protocol error).
pub fn apply_finalized_messages(tick_queue: &mut ResTickQueue, msgs: Vec<NetworkMessage>) -> (r:
    Result<(), TickQueueError>)
    requires
        old(tick_queue).wf(),
        old(tick_queue).gapless(),
        messages_wf(msgs@),
    ensures
        final(tick_queue).wf(),
        final(tick_queue).gapless(),
        final(tick_queue).next_tick() == old(tick_queue).next_tick(),
        final(tick_queue).first_populated() == old(tick_queue).first_populated(),
        final(tick_queue).last_finalized() >= old(tick_queue).last_finalized(),
        is_finalization_stream(msgs@, old(tick_queue).last_finalized() + 1) && old(
            tick_queue,
        ).last_finalized() + msgs@.len() < old(tick_queue).first_populated() + SLOT_COUNT ==> {
            &&& r is Ok
            &&& final(tick_queue).last_finalized() == old(tick_queue).last_finalized()
                + msgs@.len()
            &&& forall|i: int|
                0 <= i < msgs@.len() ==> #[trigger] final(tick_queue).tick_actions(
                    old(tick_queue).last_finalized() + 1 + i,
                ) == old(tick_queue).tick_actions(old(tick_queue).last_finalized() + 1 + i)
                    + stream_actions(msgs@, i)
            &&& forall|i: int|
                0 <= i < msgs@.len() ==> #[trigger] final(tick_queue).tick_state(
                    old(tick_queue).last_finalized() + 1 + i,
                ) == QueueSlotState::Finalized
            &&& forall|u: int|
                u <= old(tick_queue).last_finalized() || u > old(tick_queue).last_finalized()
                    + msgs@.len() ==> #[trigger] final(tick_queue).tick_actions(u) == old(
                    tick_queue,
                ).tick_actions(u)
        },
{
    let ghost q0 = *old(tick_queue);
    let ghost all = msgs@;
    let ghost good = is_finalization_stream(all, q0.last_finalized() + 1) && q0.last_finalized()
        + all.len() < q0.first_populated() + SLOT_COUNT;
    let mut incoming = msgs;
    proof {
        assert(incoming@ =~= all.skip(0));
        crate::tick_queue::lemma_wf_bounds(q0);
    }
    while incoming.len() > 0
        invariant
            q0 == *old(tick_queue),
            all == msgs@,
            incoming@.len() <= all.len(),
            incoming@ == all.skip(all.len() - incoming@.len()),
            messages_wf(all),
            tick_queue.wf(),
            tick_queue.gapless(),
            tick_queue.next_tick() == q0.next_tick(),
            tick_queue.first_populated() == q0.first_populated(),
            tick_queue.last_finalized() >= q0.last_finalized(),
            good == (is_finalization_stream(all, q0.last_finalized() + 1) && q0.last_finalized()
                + all.len() < q0.first_populated() + SLOT_COUNT),
            good ==> {
                &&& tick_queue.last_finalized() == q0.last_finalized() + (all.len()
                    - incoming@.len())
                &&& forall|i: int|
                    0 <= i < all.len() - incoming@.len() ==> #[trigger] tick_queue.tick_actions(
                        q0.last_finalized() + 1 + i,
                    ) == q0.tick_actions(q0.last_finalized() + 1 + i) + stream_actions(all, i)
                &&& forall|i: int|
                    0 <= i < all.len() - incoming@.len() ==> #[trigger] tick_queue.tick_state(
                        q0.last_finalized() + 1 + i,
                    ) == QueueSlotState::Finalized
                &&& forall|u: int|
                    u <= q0.last_finalized() || u > q0.last_finalized() + (all.len()
                        - incoming@.len()) ==> #[trigger] tick_queue.tick_actions(u)
                        == q0.tick_actions(u)
            },
        decreases incoming@.len(),
    {
        let ghost k = all.len() - incoming@.len();
        proof {
            assert(incoming@[0] == all[k as int]);
        }
        let m = incoming.remove(0);
        proof {
            assert(incoming@ =~= all.skip(k + 1));
            assert(m == all[k as int]);
            assert(m.wf());
        }
        match m {
            NetworkMessage::FinalizedTick { tick, actions } => {
                let expected: usize = tick_queue.next_unfinalized_tick();
                if tick != expected {
                    proof {
                        if good {
                            assert(all[k as int] matches NetworkMessage::FinalizedTick {
                                tick: tk,
                                ..
                            } && tk == q0.last_finalized() + 1 + k);
                            assert(false);
                        }
                    }
                    return Err(TickQueueError::PastTick);
                }
                proof {
                    crate::tick_queue::lemma_finalization_horizon(*tick_queue);
                    if good {
                        assert(all[k as int] matches NetworkMessage::FinalizedTick {
                            tick: tk,
                            ..
                        } && tk == q0.last_finalized() + 1 + k);
                        assert(tick == q0.last_finalized() + 1 + k);
                        assert(tick < q0.first_populated() + SLOT_COUNT);
                    }
                }
                let ghost pre = *tick_queue;
                match tick_queue.finalize_tick_with_actions(tick, actions) {
                    Ok(()) => {
                        proof {
                            if good {
                                assert(stream_actions(all, k as int) == actions@);
                                assert(tick_queue.last_finalized() == q0.last_finalized() + k
                                    + 1);
                                assert(pre.tick_actions(tick as int) == q0.tick_actions(
                                    tick as int,
                                ));
                                assert forall|i: int|
                                    0 <= i < k + 1 implies #[trigger] tick_queue.tick_actions(
                                    q0.last_finalized() + 1 + i,
                                ) == q0.tick_actions(q0.last_finalized() + 1 + i)
                                    + stream_actions(all, i) by {
                                    if i < k {
                                        assert(tick_queue.tick_actions(
                                            q0.last_finalized() + 1 + i,
                                        ) == pre.tick_actions(q0.last_finalized() + 1 + i));
                                    }
                                }
                                assert forall|i: int|
                                    0 <= i < k + 1 implies #[trigger] tick_queue.tick_state(
                                    q0.last_finalized() + 1 + i,
                                ) == QueueSlotState::Finalized by {
                                    if i < k {
                                        assert(tick_queue.tick_state(
                                            q0.last_finalized() + 1 + i,
                                        ) == pre.tick_state(q0.last_finalized() + 1 + i));
                                    }
                                }
                                assert forall|u: int|
                                    u <= q0.last_finalized() || u > q0.last_finalized() + (k + 1)
                                        implies #[trigger] tick_queue.tick_actions(u)
                                        == q0.tick_actions(u) by {
                                    assert(tick_queue.tick_actions(u) == pre.tick_actions(u));
                                }
                            }
                        }
                    },
                    Err(e) => {
                        proof {
                            if good {
                                assert(tick_queue.tick_state(tick as int)
                                    == QueueSlotState::Pending);
                                assert(false);
                            }
                        }
                        return Err(e);
                    },
                }
            },
            _ => {
                proof {
                    if good {
                        assert(all[k as int] matches NetworkMessage::FinalizedTick { .. });
                        assert(false);
                    }
                }
                return Err(TickQueueError::PastTick);
            },
        }
    }
    proof {
        if good {
            assert(incoming@.len() == 0);
        }
    }
    Ok(())
}

/// The host's finalization stream lands each agreed action list at
/// exactly the tick the host chose: a message batch of the shape the
/// host's `make_tick_finalization_messages` produces is a contiguous
/// finalization stream whose `i`-th payload is the host's agreed list
/// for tick `from + i`, so `apply_finalized_messages` (above) lands
/// exactly that list at exactly that tick on the client.
pub proof fn lemma_host_stream_lands_exactly(
    host_queue: ResTickQueue,
    msgs: Seq<NetworkMessage>,
    from: int,
)
    requires
        forall|i: int|
            0 <= i < msgs.len() ==> (#[trigger] msgs[i] matches NetworkMessage::FinalizedTick {
                tick,
                actions,
            } && tick == from + i && actions@ == host_queue.tick_actions(from + i)),
    ensures
        is_finalization_stream(msgs, from),
        forall|i: int|
            0 <= i < msgs.len() ==> #[trigger] stream_actions(msgs, i) == host_queue.tick_actions(
                from + i,
            ),
{
}

/// Sends the hello ping that starts the join handshake.
pub fn sys_initial_connect(
    network_queue: &mut ResNetworkQueue,
    connection_to_host: &ConnectionToHost,
)
    requires
        old(network_queue).wf(),
        connection_to_host.channel_id.0 < usize::MAX,
    ensures
        final(network_queue).wf(),
        final(network_queue).outbound_of(connection_to_host.channel_id) == old(
            network_queue,
        ).outbound_of(connection_to_host.channel_id).push(NetworkMessage::Ping(0)),
        forall|c: ChannelId|
            c != connection_to_host.channel_id ==> #[trigger] final(network_queue).outbound_of(c)
                == old(network_queue).outbound_of(c),
        forall|c: ChannelId| #[trigger] final(network_queue).inbound_of(c) == old(
            network_queue,
        ).inbound_of(c),
{
    network_queue.send(&connection_to_host.channel_id, NetworkMessage::Ping(0));
}

/// Answers the host's pings (the client side of the ping protocol):
/// one `Pong` per queued `Ping`, in arrival order.
pub fn sys_client_pong_responder(
    network_queue: &mut ResNetworkQueue,
    connection_to_host: &ConnectionToHost,
)
    requires
        old(network_queue).wf(),
        connection_to_host.channel_id.0 < usize::MAX,
    ensures
        final(network_queue).wf(),
        final(network_queue).inbound_of(connection_to_host.channel_id) == old(
            network_queue,
        ).inbound_of(connection_to_host.channel_id).filter(
            |m: NetworkMessage| !is_kind(m, MessageKind::Ping),
        ),
        message_views(final(network_queue).outbound_of(connection_to_host.channel_id))
            == message_views(old(network_queue).outbound_of(connection_to_host.channel_id))
            + crate::host::pong_views(
            old(network_queue).inbound_of(connection_to_host.channel_id).filter(
                |m: NetworkMessage| is_kind(m, MessageKind::Ping),
            ),
        ),
{
    let cid = connection_to_host.channel_id;
    let ghost ob_base = old(network_queue).outbound_of(cid);
    let mut incoming = network_queue.take_inbound(&cid, MessageKind::Ping);
    proof {
        let pred = |m: NetworkMessage| is_kind(m, MessageKind::Ping);
        let drained = incoming@;
        assert forall|x: int| 0 <= x < drained.len() implies is_kind(
            #[trigger] drained[x],
            MessageKind::Ping,
        ) by {
            old(network_queue).inbound_of(cid).lemma_filter_pred(pred, x);
        }
    }
    let ghost drained = incoming@;
    let ghost nq_entry = *network_queue;
    proof {
        assert(crate::host::pong_views(drained.take(0)) =~= Seq::<MessageView>::empty());
        assert(message_views(ob_base) + Seq::<MessageView>::empty() =~= message_views(ob_base));
    }
    while incoming.len() > 0
        invariant
            incoming@.len() <= drained.len(),
            incoming@ == drained.skip(drained.len() - incoming@.len()),
            messages_wf(drained),
            forall|x: int|
                0 <= x < drained.len() ==> is_kind(#[trigger] drained[x], MessageKind::Ping),
            cid.0 < usize::MAX,
            network_queue.wf(),
            ob_base == nq_entry.outbound_of(cid),
            message_views(network_queue.outbound_of(cid)) == message_views(ob_base)
                + crate::host::pong_views(drained.take(drained.len() - incoming@.len())),
            forall|c: ChannelId| #[trigger] network_queue.inbound_of(c) == nq_entry.inbound_of(c),
        decreases incoming@.len(),
    {
        let ghost k = drained.len() - incoming@.len();
        proof {
            assert(incoming@[0] == drained[k as int]);
            assert(drained.take(k + 1) =~= drained.take(k as int).push(drained[k as int]));
        }
        let m = incoming.remove(0);
        proof {
            assert(incoming@ =~= drained.skip(k + 1));
            assert(m == drained[k as int]);
        }
        match m {
            NetworkMessage::Ping(id) => {
                let ghost ob_pre = network_queue.outbound_of(cid);
                network_queue.send(&cid, NetworkMessage::Pong(id));
                proof {
                    crate::messages::lemma_message_views_push(ob_pre, NetworkMessage::Pong(id));
                    assert(drained[k as int] == NetworkMessage::Ping(id));
                    let a = drained.take(k as int);
                    let b = a.push(drained[k as int]);
                    assert forall|x: int|
                        0 <= x < crate::host::pong_views(b).len() implies #[trigger] crate::host::pong_views(
                        b,
                    )[x] == crate::host::pong_views(a).push(MessageView::Pong(id as int))[x] by {
                        if x < a.len() {
                            assert(b[x] == a[x]);
                        } else {
                            assert(b[x] == drained[k as int]);
                        }
                    }
                    assert(crate::host::pong_views(b) =~= crate::host::pong_views(a).push(
                        MessageView::Pong(id as int),
                    ));
                    assert(message_views(network_queue.outbound_of(cid)) =~= message_views(
                        ob_base,
                    ) + crate::host::pong_views(drained.take(k + 1)));
                }
            },
            _ => {
                proof {
                    assert(is_kind(m, MessageKind::Ping));
                    assert(false);
                }
            },
        }
    }
    proof {
        assert(drained.take(drained.len() as int) =~= drained);
    }
}

/// Takes a received world snapshot off the wire, if one arrived.
/// When several did, the latest one wins.
pub fn sys_receive_world_load(
    network_queue: &mut ResNetworkQueue,
    connection_to_host: &ConnectionToHost,
) -> (r: Option<WorldLoad>)
    requires
        old(network_queue).wf(),
    ensures
        final(network_queue).wf(),
        final(network_queue).inbound_of(connection_to_host.channel_id) == old(
            network_queue,
        ).inbound_of(connection_to_host.channel_id).filter(
            |m: NetworkMessage| !is_kind(m, MessageKind::World),
        ),
        r is Some <==> old(network_queue).inbound_of(connection_to_host.channel_id).filter(
            |m: NetworkMessage| is_kind(m, MessageKind::World),
        ).len() > 0,
        r matches Some(wl) ==> {
            let ms = old(network_queue).inbound_of(connection_to_host.channel_id).filter(
                |m: NetworkMessage| is_kind(m, MessageKind::World),
            );
            ms[ms.len() - 1] matches NetworkMessage::World(w) && w.scene@ == wl.scene@
                && w.last_simulated_tick == wl.last_simulated_tick
        },
{
    let mut worlds = network_queue.take_inbound(
        &connection_to_host.channel_id,
        MessageKind::World,
    );
    if worlds.len() == 0 {
        return None;
    }
    let last = worlds.remove(worlds.len() - 1);
    proof {
        let pred = |m: NetworkMessage| is_kind(m, MessageKind::World);
        let base = old(network_queue).inbound_of(connection_to_host.channel_id);
        let ms = base.filter(pred);
        base.lemma_filter_pred(pred, ms.len() - 1);
        assert(last == ms[ms.len() - 1]);
    }
    match last {
        NetworkMessage::World(wl) => Some(wl),
        _ => {
            proof {
                assert(false);
            }
            None
        },
    }
}

/// The client's per-frame schedule step.
///
/// Sends the drained local actions to the host as one
/// `ScheduleActions` request, then handles the inbound finalization
/// stream: while the world is still on its way the stream is buffered
/// in arrival order; once connected, first anything buffered and then
/// the new arrivals are applied strictly in order, and the slots of
/// everything simulated are recycled.
pub fn sys_client_scheduler(
    action_queue: &mut ResActionQueue,
    network_queue: &mut ResNetworkQueue,
    tick_queue: &mut ResTickQueue,
    connection_to_host: &mut ConnectionToHost,
    join_state: ClientJoinState,
) -> (r: Result<(), TickQueueError>)
    requires
        join_state != ClientJoinState::NonClient,
        old(tick_queue).wf(),
        old(tick_queue).gapless(),
        old(network_queue).wf(),
        old(connection_to_host).wf(),
        actions_wf(old(action_queue).view_queue()),
        old(connection_to_host).channel_id.0 < usize::MAX,
    ensures
        final(tick_queue).wf(),
        final(tick_queue).gapless(),
        final(network_queue).wf(),
        final(connection_to_host).wf(),
        final(connection_to_host).channel_id == old(connection_to_host).channel_id,
        final(action_queue).view_queue() == Seq::<Action>::empty(),
        final(tick_queue).next_tick() == old(tick_queue).next_tick(),
        final(tick_queue).last_finalized() >= old(tick_queue).last_finalized(),
        // The drained local actions go to the host as one request.
        old(action_queue).view_queue().len() > 0 ==> message_views(
            final(network_queue).outbound_of(old(connection_to_host).channel_id),
        ) == message_views(
            old(network_queue).outbound_of(old(connection_to_host).channel_id),
        ).push(MessageView::ScheduleActions { actions: old(action_queue).view_queue() }),
        old(action_queue).view_queue().len() == 0 ==> final(network_queue).outbound_of(
            old(connection_to_host).channel_id,
        ) == old(network_queue).outbound_of(old(connection_to_host).channel_id),
        // While waiting for the world, finalizations are buffered.
        join_state != ClientJoinState::Connected ==> {
            &&& final(connection_to_host).buffered_messages@ == old(
                connection_to_host,
            ).buffered_messages@ + old(network_queue).inbound_of(
                old(connection_to_host).channel_id,
            ).filter(|m: NetworkMessage| is_kind(m, MessageKind::FinalizedTick))
            &&& *final(tick_queue) == *old(tick_queue)
        },
        // Once connected, buffered finalizations are applied before new
        // arrivals, all strictly in order.
        join_state == ClientJoinState::Connected ==> {
            let stream = old(connection_to_host).buffered_messages@ + old(
                network_queue,
            ).inbound_of(old(connection_to_host).channel_id).filter(
                |m: NetworkMessage| is_kind(m, MessageKind::FinalizedTick),
            );
            &&& final(connection_to_host).buffered_messages@ == Seq::<NetworkMessage>::empty()
            &&& (is_finalization_stream(stream, old(tick_queue).last_finalized() + 1) && old(
                tick_queue,
            ).last_finalized() + stream.len() < old(tick_queue).first_populated() + SLOT_COUNT
                && old(tick_queue).next_tick() - 1 + 2 * SLOT_COUNT <= usize::MAX ==> {
                &&& r is Ok
                &&& final(tick_queue).last_finalized() == old(tick_queue).last_finalized()
                    + stream.len()
                &&& forall|i: int|
                    0 <= i < stream.len() ==> #[trigger] final(tick_queue).tick_actions(
                        old(tick_queue).last_finalized() + 1 + i,
                    ) == old(tick_queue).tick_actions(old(tick_queue).last_finalized() + 1 + i)
                        + stream_actions(stream, i)
            })
            // The recycle step: everything already simulated is
            // released (unless the tick counter is at the machine
            // limit, when recycling waits).
            &&& (old(tick_queue).next_tick() - 1 + 2 * SLOT_COUNT <= usize::MAX ==> final(tick_queue).first_populated() == old(tick_queue).next_tick() - 1)
            &&& (old(tick_queue).next_tick() - 1 + 2 * SLOT_COUNT > usize::MAX ==> final(tick_queue).first_populated() == old(tick_queue).first_populated())
        },
{
    let cid = connection_to_host.channel_id;
    // 1. Forward the local actions.
    let actions = action_queue.take_queue();
    if actions.len() > 0 {
        let ghost ob_pre = network_queue.outbound_of(cid);
        let ghost sent = actions@;
        let msg = NetworkMessage::ScheduleActions { actions };
        proof {
            assert(msg.wf());
        }
        network_queue.send(&cid, msg);
        proof {
            crate::messages::lemma_message_views_push(ob_pre, msg);
        }
    }
    // 2. Drain the inbound finalization stream.
    let fin = network_queue.take_inbound(&cid, MessageKind::FinalizedTick);
    proof {
        let pred = |m: NetworkMessage| is_kind(m, MessageKind::FinalizedTick);
        let drained = fin@;
        assert forall|x: int| 0 <= x < drained.len() implies is_kind(
            #[trigger] drained[x],
            MessageKind::FinalizedTick,
        ) by {
            old(network_queue).inbound_of(cid).lemma_filter_pred(pred, x);
        }
    }
    match join_state {
        ClientJoinState::NonClient => Ok(()),
        ClientJoinState::NeedsSendInitialPing | ClientJoinState::WaitingForWorld => {
            // 3a. Buffer until the world has been loaded.
            let mut incoming = fin;
            connection_to_host.buffered_messages.append(&mut incoming);
            Ok(())
        },
        ClientJoinState::Connected => {
            // 3b. Apply buffered finalizations first, then new ones.
            let mut batch: Vec<NetworkMessage> = Vec::new();
            core::mem::swap(&mut batch, &mut connection_to_host.buffered_messages);
            let mut incoming = fin;
            let ghost buffered0 = batch@;
            let ghost fresh = incoming@;
            batch.append(&mut incoming);
            proof {
                assert(batch@ == buffered0 + fresh);
                assert(messages_wf(batch@)) by {
                    assert forall|x: int| 0 <= x < batch@.len() implies (
                    #[trigger] batch@[x]).wf() by {
                        if x < buffered0.len() {
                            assert(batch@[x] == buffered0[x]);
                        } else {
                            assert(batch@[x] == fresh[x - buffered0.len()]);
                        }
                    }
                }
            }
            let r = apply_finalized_messages(tick_queue, batch);
            let ghost applied = *tick_queue;
            // 4. Recycle everything already simulated.
            proof {
                crate::tick_queue::lemma_wf_bounds(*tick_queue);
            }
            let next = tick_queue.get_next_tick_to_simulate();
            if next - 1 <= usize::MAX - 2 * SLOT_COUNT {
                tick_queue.reset_simulated();
            }
            proof {
                crate::tick_queue::lemma_wf_bounds(*old(tick_queue));
                let stream = buffered0 + fresh;
                let lft0 = old(tick_queue).last_finalized();
                if is_finalization_stream(stream, lft0 + 1) && lft0 + stream.len() < old(
                    tick_queue,
                ).first_populated() + SLOT_COUNT && old(tick_queue).next_tick() - 1 + 2
                    * SLOT_COUNT <= usize::MAX {
                    assert(batch@ == stream);
                    assert forall|i: int|
                        0 <= i < stream.len() implies #[trigger] tick_queue.tick_actions(
                        lft0 + 1 + i,
                    ) == old(tick_queue).tick_actions(lft0 + 1 + i) + stream_actions(
                        stream,
                        i,
                    ) by {
                        assert(tick_queue.tick_actions(lft0 + 1 + i) == applied.tick_actions(
                            lft0 + 1 + i,
                        ));
                    }
                }
            }
            r
        },
    }
}

} // verus!
