//! The host's per-frame scheduling.
//!
//! Each frame the host assembles the next tick's action list (its own
//! drained actions first, then every connected client's requests in
//! drain order), finalizes that tick, fans the finalized stream out to
//! every connected client, and recycles slots no peer needs any more.
//! It also answers pings and runs the host side of the join handshake.

use crate::actions::{actions_wf, Action, ResActionQueue};
use crate::connection::{ClientConnection, ClientConnectionState};
use crate::messages::{
    message_views, messages_wf, ChannelId, MessageKind, MessageView, NetworkMessage, WorldLoad,
};
use crate::network_queue::{is_kind, ResNetworkQueue};
use crate::tick_queue::{QueueSlotState, ResTickQueue, TickQueueError, SLOT_COUNT};
use vstd::prelude::*;

verus! {

/// The actions carried by a sequence of `ScheduleActions` messages,
/// concatenated in message order.
pub open spec fn schedule_payloads(msgs: Seq<NetworkMessage>) -> Seq<Action>
    decreases msgs.len(),
{
    if msgs.len() == 0 {
        Seq::<Action>::empty()
    } else {
        (match msgs[0] {
            NetworkMessage::ScheduleActions { actions } => actions@,
            _ => Seq::<Action>::empty(),
        }) + schedule_payloads(msgs.skip(1))
    }
}

/// What one client contributes to the tick being assembled: the
/// payloads of its queued `ScheduleActions`, or nothing if it is not
/// connected.
pub open spec fn client_contribution(c: ClientConnection, nq: ResNetworkQueue) -> Seq<Action> {
    if c.state() == ClientConnectionState::Connected {
        schedule_payloads(
            nq.inbound_of(c.channel_id).filter(
                |m: NetworkMessage| is_kind(m, MessageKind::ScheduleActions),
            ),
        )
    } else {
        Seq::<Action>::empty()
    }
}

/// What a list of clients contributes, in client order.
pub open spec fn client_contributions(clients: Seq<ClientConnection>, nq: ResNetworkQueue) -> Seq<
    Action,
>
    decreases clients.len(),
{
    if clients.len() == 0 {
        Seq::<Action>::empty()
    } else {
        client_contribution(clients[0], nq) + client_contributions(clients.skip(1), nq)
    }
}

/// Appending a client appends its contribution.
pub proof fn lemma_client_contributions_push(
    clients: Seq<ClientConnection>,
    c: ClientConnection,
    nq: ResNetworkQueue,
)
    ensures
        client_contributions(clients.push(c), nq) == client_contributions(clients, nq)
            + client_contribution(c, nq),
    decreases clients.len(),
{
    if clients.len() == 0 {
        assert(clients.push(c).skip(1) =~= Seq::<ClientConnection>::empty());
        assert(clients.push(c)[0] == c);
        assert(client_contributions(Seq::<ClientConnection>::empty(), nq) == Seq::<
            Action,
        >::empty());
        assert(client_contributions(clients.push(c), nq) == client_contribution(c, nq)
            + Seq::<Action>::empty());
        assert(client_contribution(c, nq) + Seq::<Action>::empty() =~= client_contribution(c, nq));
        assert(client_contributions(clients, nq) + client_contribution(c, nq) =~= client_contribution(
            c,
            nq,
        ));
    } else {
        assert(clients.push(c).skip(1) =~= clients.skip(1).push(c));
        lemma_client_contributions_push(clients.skip(1), c, nq);
        assert(clients.push(c)[0] == clients[0]);
        assert(client_contributions(clients.push(c), nq) == client_contribution(clients[0], nq) + (
        client_contributions(clients.skip(1), nq) + client_contribution(c, nq)));
        assert(client_contribution(clients[0], nq) + (client_contributions(clients.skip(1), nq)
            + client_contribution(c, nq)) =~= (client_contribution(clients[0], nq)
            + client_contributions(clients.skip(1), nq)) + client_contribution(c, nq));
    }
}

/// Appending a message appends its payload.
pub proof fn lemma_schedule_payloads_push(msgs: Seq<NetworkMessage>, m: NetworkMessage)
    ensures
        schedule_payloads(msgs.push(m)) == schedule_payloads(msgs) + (match m {
            NetworkMessage::ScheduleActions { actions } => actions@,
            _ => Seq::<Action>::empty(),
        }),
    decreases msgs.len(),
{
    let payload = (match m {
        NetworkMessage::ScheduleActions { actions } => actions@,
        _ => Seq::<Action>::empty(),
    });
    if msgs.len() == 0 {
        assert(msgs.push(m).skip(1) =~= Seq::<NetworkMessage>::empty());
        assert(msgs.push(m)[0] == m);
        assert(schedule_payloads(Seq::<NetworkMessage>::empty()) == Seq::<Action>::empty());
        assert(schedule_payloads(msgs.push(m)) == payload + Seq::<Action>::empty());
        assert(payload + Seq::<Action>::empty() =~= payload);
        assert(schedule_payloads(msgs) + payload =~= payload);
    } else {
        assert(msgs.push(m).skip(1) =~= msgs.skip(1).push(m));
        lemma_schedule_payloads_push(msgs.skip(1), m);
        assert(msgs.push(m)[0] == msgs[0]);
        let head = (match msgs[0] {
            NetworkMessage::ScheduleActions { actions } => actions@,
            _ => Seq::<Action>::empty(),
        });
        assert(schedule_payloads(msgs.push(m)) == head + (schedule_payloads(msgs.skip(1))
            + payload));
        assert(head + (schedule_payloads(msgs.skip(1)) + payload) =~= (head + schedule_payloads(
            msgs.skip(1),
        )) + payload);
    }
}

/// The drain order of contributions, spelled out for two clients: the
/// tick the host assembles holds client A's queued payloads before
/// client B's whenever A stands before B in the client table.
/// Together with `sys_host_scheduler`'s postcondition this pins the
/// agreed order of one tick: host-local actions first, then each
/// connected client's requests in drain order.
pub proof fn lemma_two_client_contributions(
    a: ClientConnection,
    b: ClientConnection,
    nq: ResNetworkQueue,
)
    ensures
        client_contributions(seq![a, b], nq) == client_contribution(a, nq) + client_contribution(
            b,
            nq,
        ),
{
    let two = seq![a, b];
    assert(two.skip(1) =~= seq![b]);
    assert(seq![b].skip(1) =~= Seq::<ClientConnection>::empty());
    assert(client_contributions(Seq::<ClientConnection>::empty(), nq) == Seq::<Action>::empty());
    assert(client_contributions(seq![b], nq) == client_contribution(b, nq)
        + Seq::<Action>::empty());
    assert(client_contribution(b, nq) + Seq::<Action>::empty() =~= client_contribution(b, nq));
}

/// The views of the finalization stream for ticks `from..=q.last_finalized()`.
pub open spec fn finalization_views(q: ResTickQueue, from: int) -> Seq<MessageView> {
    if from > q.last_finalized() {
        Seq::<MessageView>::empty()
    } else {
        Seq::new(
            (q.last_finalized() - from + 1) as nat,
            |i: int| MessageView::FinalizedTick { tick: from + i, actions: q.tick_actions(from + i) },
        )
    }
}

/// Clients never share a channel.
pub open spec fn distinct_channels(clients: Seq<ClientConnection>) -> bool {
    forall|i: int, j: int|
        0 <= i < j < clients.len() ==> (#[trigger] clients[i]).channel_id != (
        #[trigger] clients[j]).channel_id
}

/// Every client's channel is a valid index.
pub open spec fn channels_in_range(clients: Seq<ClientConnection>) -> bool {
    forall|i: int| 0 <= i < clients.len() ==> (#[trigger] clients[i]).channel_id.0 < usize::MAX
}

/// A connected client's send window agrees with the queue: everything
/// up to its `last_finalized_tick` was sent, nothing beyond the
/// queue's horizon, and its slots are still held in the ring.
pub open spec fn clients_track_queue(clients: Seq<ClientConnection>, q: ResTickQueue) -> bool {
    forall|i: int|
        0 <= i < clients.len() && (#[trigger] clients[i]).state()
            == ClientConnectionState::Connected ==> {
            &&& q.next_tick() - 1 <= clients[i].last_finalized_tick
            &&& clients[i].last_finalized_tick <= q.last_finalized()
        }
}

/// The views of the `Pong` replies to a sequence of `Ping` messages.
pub open spec fn pong_views(msgs: Seq<NetworkMessage>) -> Seq<MessageView> {
    msgs.map_values(
        |m: NetworkMessage|
            match m {
                NetworkMessage::Ping(n) => MessageView::Pong(n as int),
                _ => m@,
            },
    )
}

/// Answers every queued `Ping` of every client with a `Pong`, in
/// order.  A client's first ping is its hello: it moves the client
/// from `WaitingForHello` to `NeedsWorldSend`.
pub fn sys_ping_responder(
    network_queue: &mut ResNetworkQueue,
    clients: &mut Vec<ClientConnection>,
)
    requires
        old(network_queue).wf(),
        distinct_channels(old(clients)@),
        channels_in_range(old(clients)@),
    ensures
        final(network_queue).wf(),
        final(clients)@.len() == old(clients)@.len(),
        distinct_channels(final(clients)@),
        channels_in_range(final(clients)@),
        forall|j: int|
            0 <= j < old(clients)@.len() ==> {
                let oc = #[trigger] old(clients)@[j];
                let nc = final(clients)@[j];
                &&& nc.channel_id == oc.channel_id
                &&& nc.player_id == oc.player_id
                &&& nc.last_finalized_tick == oc.last_finalized_tick
                &&& nc.state() == if oc.state() == ClientConnectionState::WaitingForHello && old(
                    network_queue,
                ).inbound_of(oc.channel_id).filter(
                    |m: NetworkMessage| is_kind(m, MessageKind::Ping),
                ).len() > 0 {
                    ClientConnectionState::NeedsWorldSend
                } else {
                    oc.state()
                }
            },
        forall|j: int|
            0 <= j < old(clients)@.len() ==> {
                let oc = #[trigger] old(clients)@[j];
                &&& final(network_queue).inbound_of(oc.channel_id) == old(
                    network_queue,
                ).inbound_of(oc.channel_id).filter(
                    |m: NetworkMessage| !is_kind(m, MessageKind::Ping),
                )
                &&& message_views(final(network_queue).outbound_of(oc.channel_id))
                    == message_views(old(network_queue).outbound_of(oc.channel_id)) + pong_views(
                    old(network_queue).inbound_of(oc.channel_id).filter(
                        |m: NetworkMessage| is_kind(m, MessageKind::Ping),
                    ),
                )
            },
{
    let ghost nq0 = *network_queue;
    let ghost clients0 = old(clients)@;
    let mut j: usize = 0;
    while j < clients.len()
        invariant
            0 <= j <= clients0.len(),
            clients@.len() == clients0.len(),
            distinct_channels(clients0),
            channels_in_range(clients0),
            network_queue.wf(),
            forall|k: int|
                0 <= k < clients0.len() ==> {
                    let oc = #[trigger] clients0[k];
                    let nc = clients@[k];
                    &&& nc.channel_id == oc.channel_id
                    &&& nc.player_id == oc.player_id
                    &&& nc.last_finalized_tick == oc.last_finalized_tick
                    &&& (k >= j ==> nc == oc)
                    &&& (k < j ==> nc.state() == if oc.state()
                        == ClientConnectionState::WaitingForHello && nq0.inbound_of(
                        oc.channel_id,
                    ).filter(|m: NetworkMessage| is_kind(m, MessageKind::Ping)).len() > 0 {
                        ClientConnectionState::NeedsWorldSend
                    } else {
                        oc.state()
                    })
                },
            forall|k: int|
                0 <= k < clients0.len() ==> {
                    let oc = #[trigger] clients0[k];
                    &&& (k < j ==> network_queue.inbound_of(oc.channel_id) == nq0.inbound_of(
                        oc.channel_id,
                    ).filter(|m: NetworkMessage| !is_kind(m, MessageKind::Ping)))
                    &&& (k < j ==> message_views(network_queue.outbound_of(oc.channel_id))
                        == message_views(nq0.outbound_of(oc.channel_id)) + pong_views(
                        nq0.inbound_of(oc.channel_id).filter(
                            |m: NetworkMessage| is_kind(m, MessageKind::Ping),
                        ),
                    ))
                    &&& (k >= j ==> network_queue.inbound_of(oc.channel_id) == nq0.inbound_of(
                        oc.channel_id,
                    ) && network_queue.outbound_of(oc.channel_id) == nq0.outbound_of(
                        oc.channel_id,
                    ))
                },
        decreases clients0.len() - j,
    {
        let cid = clients[j].channel_id;
        let msgs = network_queue.take_inbound(&cid, MessageKind::Ping);
        let ghost drained = msgs@;
        proof {
            let pred = |m: NetworkMessage| is_kind(m, MessageKind::Ping);
            assert(clients0[j as int].channel_id == cid);
            assert(drained == nq0.inbound_of(cid).filter(pred));
            assert forall|x: int| 0 <= x < drained.len() implies is_kind(
                #[trigger] drained[x],
                MessageKind::Ping,
            ) by {
                nq0.inbound_of(cid).lemma_filter_pred(pred, x);
            }
        }
        let mut me = ClientConnection::new(cid, clients[j].player_id);
        clients.set_and_swap(j, &mut me);
        let ghost me0 = me;
        let ghost out_base = network_queue.outbound_of(cid);
        let mut incoming = msgs;
        let ghost nq_entry = *network_queue;
        proof {
            assert(incoming@ =~= drained.skip(0));
            assert(pong_views(drained.take(0)) =~= Seq::<MessageView>::empty());
            assert(message_views(out_base) + Seq::<MessageView>::empty() =~= message_views(
                out_base,
            ));
        }
        while incoming.len() > 0
            invariant
                incoming@.len() <= drained.len(),
                incoming@ == drained.skip(drained.len() - incoming@.len()),
                messages_wf(drained),
                forall|x: int|
                    0 <= x < drained.len() ==> is_kind(#[trigger] drained[x], MessageKind::Ping),
                cid.0 < usize::MAX,
                network_queue.wf(),
                out_base == nq_entry.outbound_of(cid),
                message_views(network_queue.outbound_of(cid)) == message_views(out_base)
                    + pong_views(drained.take(drained.len() - incoming@.len())),
                forall|c: ChannelId|
                    c != cid ==> #[trigger] network_queue.outbound_of(c) == nq_entry.outbound_of(
                        c,
                    ),
                forall|c: ChannelId| #[trigger] network_queue.inbound_of(c) == nq_entry.inbound_of(
                    c,
                ),
                me.channel_id == me0.channel_id,
                me.player_id == me0.player_id,
                me.last_finalized_tick == me0.last_finalized_tick,
                me.state() == if me0.state() == ClientConnectionState::WaitingForHello
                    && drained.len() > incoming@.len() {
                    ClientConnectionState::NeedsWorldSend
                } else {
                    me0.state()
                },
            decreases incoming@.len(),
        {
            let ghost k = drained.len() - incoming@.len();
            proof {
                assert(incoming@[0] == drained[k as int]);
                assert(drained.take(k + 1) =~= drained.take(k as int).push(drained[k as int]));
            }
            let m = incoming.remove(0);
            proof {
                assert(incoming@ =~= drained.skip(k + 1));
            }
            match m {
                NetworkMessage::Ping(id) => {
                    let ghost ob_pre = network_queue.outbound_of(cid);
                    network_queue.send(&cid, NetworkMessage::Pong(id));
                    me.on_ping(id);
                    proof {
                        crate::messages::lemma_message_views_push(ob_pre, NetworkMessage::Pong(id));
                        assert(drained[k as int] == NetworkMessage::Ping(id));
                        let a = drained.take(k as int);
                        let b = a.push(drained[k as int]);
                        assert(drained.take(k + 1) == b);
                        assert forall|x: int|
                            0 <= x < pong_views(b).len() implies #[trigger] pong_views(b)[x]
                                == pong_views(a).push(MessageView::Pong(id as int))[x] by {
                            if x < a.len() {
                                assert(b[x] == a[x]);
                            } else {
                                assert(b[x] == drained[k as int]);
                            }
                        }
                        assert(pong_views(b) =~= pong_views(a).push(MessageView::Pong(id as int)));
                        assert(message_views(network_queue.outbound_of(cid)) =~= message_views(
                            out_base,
                        ) + pong_views(drained.take(k + 1)));
                    }
                },
                _ => {
                    proof {
                        assert(is_kind(m, MessageKind::Ping));
                        assert(false);
                    }
                },
            }
        }
        proof {
            assert(drained.take(drained.len() as int) =~= drained);
        }
        clients.set(j, me);
        j = j + 1;
    }
    proof {
        assert forall|x: int, y: int|
            0 <= x < y < clients@.len() implies (#[trigger] clients@[x]).channel_id != (
        #[trigger] clients@[y]).channel_id by {
            assert(clients@[x].channel_id == clients0[x].channel_id);
            assert(clients@[y].channel_id == clients0[y].channel_id);
        }
        assert forall|x: int|
            0 <= x < clients@.len() implies (#[trigger] clients@[x]).channel_id.0 < usize::MAX by {
            assert(clients@[x].channel_id == clients0[x].channel_id);
        }
    }
}

/// The `SpawnPlayer` actions owed to the clients that are about to
/// receive the world, in client order.
pub open spec fn spawn_actions(clients: Seq<ClientConnection>) -> Seq<Action>
    decreases clients.len(),
{
    if clients.len() == 0 {
        Seq::<Action>::empty()
    } else {
        (if clients[0].state() == ClientConnectionState::NeedsWorldSend {
            seq![Action::SpawnPlayer { player_id: clients[0].player_id }]
        } else {
            Seq::<Action>::empty()
        }) + spawn_actions(clients.skip(1))
    }
}

/// Appending a client appends its spawn action, if it is owed one.
pub proof fn lemma_spawn_actions_push(clients: Seq<ClientConnection>, c: ClientConnection)
    ensures
        spawn_actions(clients.push(c)) == spawn_actions(clients) + (if c.state()
            == ClientConnectionState::NeedsWorldSend {
            seq![Action::SpawnPlayer { player_id: c.player_id }]
        } else {
            Seq::<Action>::empty()
        }),
    decreases clients.len(),
{
    let tailp = (if c.state() == ClientConnectionState::NeedsWorldSend {
        seq![Action::SpawnPlayer { player_id: c.player_id }]
    } else {
        Seq::<Action>::empty()
    });
    if clients.len() == 0 {
        assert(clients.push(c).skip(1) =~= Seq::<ClientConnection>::empty());
        assert(clients.push(c)[0] == c);
        assert(spawn_actions(Seq::<ClientConnection>::empty()) == Seq::<Action>::empty());
        assert(spawn_actions(clients.push(c)) == tailp + Seq::<Action>::empty());
        assert(tailp + Seq::<Action>::empty() =~= tailp);
        assert(spawn_actions(clients) + tailp =~= tailp);
    } else {
        assert(clients.push(c).skip(1) =~= clients.skip(1).push(c));
        lemma_spawn_actions_push(clients.skip(1), c);
        assert(clients.push(c)[0] == clients[0]);
        let head = (if clients[0].state() == ClientConnectionState::NeedsWorldSend {
            seq![Action::SpawnPlayer { player_id: clients[0].player_id }]
        } else {
            Seq::<Action>::empty()
        });
        assert(spawn_actions(clients.push(c)) == head + (spawn_actions(clients.skip(1)) + tailp));
        assert(head + (spawn_actions(clients.skip(1)) + tailp) =~= (head + spawn_actions(
            clients.skip(1),
        )) + tailp);
    }
}

/// The host side of the join handshake's world transfer.
///
/// Every client that has said hello is handed the serialized world as
/// of the last simulated tick, together with its player identity, and
/// becomes connected with its send window starting right after that
/// tick.  For each such client a `SpawnPlayer` action is queued
/// locally, so the new player enters the simulation at the next
/// finalized tick, uniformly on every participant.
pub fn sys_send_world(
    tick_queue: &ResTickQueue,
    network_queue: &mut ResNetworkQueue,
    clients: &mut Vec<ClientConnection>,
    action_queue: &mut ResActionQueue,
    scene: &Vec<u8>,
)
    requires
        tick_queue.wf(),
        old(network_queue).wf(),
        distinct_channels(old(clients)@),
        channels_in_range(old(clients)@),
        clients_track_queue(old(clients)@, *tick_queue),
        actions_wf(old(action_queue).view_queue()),
    ensures
        final(network_queue).wf(),
        final(clients)@.len() == old(clients)@.len(),
        clients_track_queue(final(clients)@, *tick_queue),
        distinct_channels(final(clients)@),
        channels_in_range(final(clients)@),
        actions_wf(final(action_queue).view_queue()),
        final(action_queue).view_queue() == old(action_queue).view_queue() + spawn_actions(
            old(clients)@,
        ),
        forall|j: int|
            0 <= j < old(clients)@.len() ==> {
                let oc = #[trigger] old(clients)@[j];
                let nc = final(clients)@[j];
                &&& nc.channel_id == oc.channel_id
                &&& nc.player_id == oc.player_id
                &&& (oc.state() == ClientConnectionState::NeedsWorldSend ==> nc.state()
                    == ClientConnectionState::Connected && nc.last_finalized_tick
                    == tick_queue.next_tick() - 1)
                &&& (oc.state() != ClientConnectionState::NeedsWorldSend ==> nc == oc)
            },
        forall|j: int|
            0 <= j < old(clients)@.len() ==> {
                let oc = #[trigger] old(clients)@[j];
                &&& (oc.state() == ClientConnectionState::NeedsWorldSend ==> message_views(
                    final(network_queue).outbound_of(oc.channel_id),
                ) == message_views(old(network_queue).outbound_of(oc.channel_id)) + seq![
                    MessageView::World {
                        scene: scene@,
                        last_simulated_tick: tick_queue.next_tick() - 1,
                    },
                    MessageView::SetClientConfig { player_id: oc.player_id },
                ])
                &&& (oc.state() != ClientConnectionState::NeedsWorldSend ==> final(network_queue).outbound_of(oc.channel_id) == old(network_queue).outbound_of(oc.channel_id))
            },
        forall|c: ChannelId| #[trigger] final(network_queue).inbound_of(c) == old(
            network_queue,
        ).inbound_of(c),
{
    proof {
        crate::tick_queue::lemma_wf_bounds(*tick_queue);
    }
    let last_sim: usize = tick_queue.get_last_simulated_tick();
    let ghost nq0 = *network_queue;
    let ghost clients0 = old(clients)@;
    let ghost aq0 = old(action_queue).view_queue();
    let mut j: usize = 0;
    while j < clients.len()
        invariant
            0 <= j <= clients0.len(),
            clients@.len() == clients0.len(),
            distinct_channels(clients0),
            channels_in_range(clients0),
            tick_queue.wf(),
            clients_track_queue(clients0, *tick_queue),
            last_sim == tick_queue.next_tick() - 1,
            network_queue.wf(),
            action_queue.view_queue() == aq0 + spawn_actions(clients0.take(j as int)),
            actions_wf(action_queue.view_queue()),
            forall|k: int|
                0 <= k < clients0.len() ==> {
                    let oc = #[trigger] clients0[k];
                    let nc = clients@[k];
                    &&& nc.channel_id == oc.channel_id
                    &&& nc.player_id == oc.player_id
                    &&& (k >= j ==> nc == oc)
                    &&& (k < j && oc.state() == ClientConnectionState::NeedsWorldSend
                        ==> nc.state() == ClientConnectionState::Connected
                        && nc.last_finalized_tick == last_sim)
                    &&& (oc.state() != ClientConnectionState::NeedsWorldSend ==> nc == oc)
                },
            forall|k: int|
                0 <= k < clients0.len() ==> {
                    let oc = #[trigger] clients0[k];
                    &&& (k < j && oc.state() == ClientConnectionState::NeedsWorldSend
                        ==> message_views(network_queue.outbound_of(oc.channel_id))
                        == message_views(nq0.outbound_of(oc.channel_id)) + seq![
                        MessageView::World { scene: scene@, last_simulated_tick: last_sim as int },
                        MessageView::SetClientConfig { player_id: oc.player_id },
                    ])
                    &&& ((k >= j || oc.state() != ClientConnectionState::NeedsWorldSend)
                        ==> network_queue.outbound_of(oc.channel_id) == nq0.outbound_of(
                        oc.channel_id,
                    ))
                },
            forall|c: ChannelId| #[trigger] network_queue.inbound_of(c) == nq0.inbound_of(c),
        decreases clients0.len() - j,
    {
        proof {
            assert(clients0.take(j + 1) =~= clients0.take(j as int).push(clients0[j as int]));
            lemma_spawn_actions_push(clients0.take(j as int), clients0[j as int]);
        }
        let needs = clients[j].needs_world_send();
        if needs {
            let cid = clients[j].channel_id;
            let pid = clients[j].player_id;
            let scene_copy = crate::codec::clone_bytes(scene);
            let world_msg = NetworkMessage::World(
                WorldLoad { scene: scene_copy, last_simulated_tick: last_sim },
            );
            let ghost ob0 = network_queue.outbound_of(cid);
            network_queue.send(&cid, world_msg);
            let ghost ob1 = network_queue.outbound_of(cid);
            network_queue.send(&cid, NetworkMessage::SetClientConfig { player_id: pid });
            proof {
                crate::messages::lemma_message_views_push(
                    ob0,
                    NetworkMessage::World(
                        WorldLoad {
                            scene: scene_copy,
                            last_simulated_tick: last_sim,
                        },
                    ),
                );
                crate::messages::lemma_message_views_push(
                    ob1,
                    NetworkMessage::SetClientConfig { player_id: pid },
                );
                assert(message_views(network_queue.outbound_of(cid)) =~= message_views(ob0)
                    + seq![
                    MessageView::World { scene: scene@, last_simulated_tick: last_sim as int },
                    MessageView::SetClientConfig { player_id: pid },
                ]);
            }
            let mut me = ClientConnection::new(cid, pid);
            clients.set_and_swap(j, &mut me);
            me.on_world_send(last_sim);
            clients.set(j, me);
            action_queue.add_action(Action::SpawnPlayer { player_id: pid });
            proof {
                assert(action_queue.view_queue() =~= aq0 + spawn_actions(clients0.take(j + 1)));
            }
        } else {
            proof {
                assert(spawn_actions(clients0.take(j as int)) + Seq::<Action>::empty()
                    =~= spawn_actions(clients0.take(j as int)));
            }
        }
        j = j + 1;
    }
    proof {
        assert(clients0.take(clients0.len() as int) =~= clients0);
        assert forall|x: int|
            0 <= x < clients@.len() && (#[trigger] clients@[x]).state()
                == ClientConnectionState::Connected implies {
            &&& tick_queue.next_tick() - 1 <= clients@[x].last_finalized_tick
            &&& clients@[x].last_finalized_tick <= tick_queue.last_finalized()
        } by {
            if clients0[x].state() == ClientConnectionState::NeedsWorldSend {
                assert(clients@[x].last_finalized_tick == last_sim);
            } else {
                assert(clients@[x] == clients0[x]);
            }
        }
        assert forall|x: int, y: int|
            0 <= x < y < clients@.len() implies (#[trigger] clients@[x]).channel_id != (
        #[trigger] clients@[y]).channel_id by {
            assert(clients@[x].channel_id == clients0[x].channel_id);
            assert(clients@[y].channel_id == clients0[y].channel_id);
        }
        assert forall|x: int|
            0 <= x < clients@.len() implies (#[trigger] clients@[x]).channel_id.0 < usize::MAX by {
            assert(clients@[x].channel_id == clients0[x].channel_id);
        }
    }
}

/// The host's per-frame schedule step.
///
/// Assembles the next unfinalized tick from the host's own drained
/// action queue followed by every connected client's queued
/// `ScheduleActions` payloads (in client order, then message order),
/// finalizes it, sends every connected client the finalization stream
/// it is missing, and recycles the slots every peer has passed.  When
/// the ring has no free slot for the next tick nothing happens and
/// `RingOverflow` is reported: the host must wait for slow peers.
pub fn sys_host_scheduler(
    action_queue: &mut ResActionQueue,
    network_queue: &mut ResNetworkQueue,
    tick_queue: &mut ResTickQueue,
    clients: &mut Vec<ClientConnection>,
) -> (r: Result<(), TickQueueError>)
    requires
        old(tick_queue).wf(),
        old(tick_queue).gapless(),
        old(network_queue).wf(),
        actions_wf(old(action_queue).view_queue()),
        distinct_channels(old(clients)@),
        channels_in_range(old(clients)@),
        clients_track_queue(old(clients)@, *old(tick_queue)),
    ensures
        final(tick_queue).wf(),
        final(tick_queue).gapless(),
        final(network_queue).wf(),
        distinct_channels(final(clients)@),
        channels_in_range(final(clients)@),
        r is Err ==> {
            &&& *final(tick_queue) == *old(tick_queue)
            &&& *final(action_queue) == *old(action_queue)
            &&& *final(clients) == *old(clients)
            &&& r == Err::<(), TickQueueError>(TickQueueError::RingOverflow)
        },
        r is Ok <==> old(tick_queue).last_finalized() + 1 < old(tick_queue).first_populated()
            + SLOT_COUNT,
        r is Ok ==> {
            let t = old(tick_queue).last_finalized() + 1;
            &&& final(tick_queue).next_tick() == old(tick_queue).next_tick()
            &&& final(tick_queue).last_finalized() == t
            &&& final(tick_queue).tick_state(t) == QueueSlotState::Finalized
            &&& final(tick_queue).tick_actions(t) == old(tick_queue).tick_actions(t) + old(
                action_queue,
            ).view_queue() + client_contributions(old(clients)@, *old(network_queue))
            &&& forall|u: int|
                u >= old(tick_queue).next_tick() - 1 && u != t
                    ==> #[trigger] final(tick_queue).tick_actions(u) == old(
                    tick_queue,
                ).tick_actions(u)
            &&& final(action_queue).view_queue() == Seq::<Action>::empty()
            &&& final(clients)@.len() == old(clients)@.len()
            &&& forall|j: int|
                0 <= j < old(clients)@.len() ==> {
                    let oc = #[trigger] old(clients)@[j];
                    let nc = final(clients)@[j];
                    &&& nc.channel_id == oc.channel_id
                    &&& nc.player_id == oc.player_id
                    &&& nc.state() == oc.state()
                    &&& (oc.state() == ClientConnectionState::Connected ==> nc.last_finalized_tick
                        == t)
                    &&& (oc.state() != ClientConnectionState::Connected ==> nc == oc)
                }
            &&& forall|j: int|
                0 <= j < old(clients)@.len() && (#[trigger] old(clients)@[j]).state()
                    == ClientConnectionState::Connected ==> message_views(
                    final(network_queue).outbound_of(old(clients)@[j].channel_id),
                ) == message_views(old(network_queue).outbound_of(old(clients)@[j].channel_id))
                    + finalization_views(
                    *final(tick_queue),
                    old(clients)@[j].last_finalized_tick + 1,
                )
            &&& clients_track_queue(final(clients)@, *final(tick_queue))
            // The recycle step: every slot below the simulation point
            // is released (unless the tick counter is at the machine
            // limit, when recycling waits).
            &&& (old(tick_queue).next_tick() - 1 + 2 * SLOT_COUNT <= usize::MAX ==> final(tick_queue).first_populated() == old(tick_queue).next_tick() - 1)
            &&& (old(tick_queue).next_tick() - 1 + 2 * SLOT_COUNT > usize::MAX ==> final(tick_queue).first_populated() == old(tick_queue).first_populated())
        },
{
    proof {
        crate::tick_queue::lemma_wf_bounds(*old(tick_queue));
        crate::tick_queue::lemma_finalization_horizon(*old(tick_queue));
    }
    // Backpressure: no free slot for the next tick means a peer is too
    // far behind; leave everything queued for a later frame.
    let t: usize = tick_queue.next_unfinalized_tick();
    if t >= tick_queue.get_first_populated() + SLOT_COUNT {
        return Err(TickQueueError::RingOverflow);
    }
    // Host-local actions come first.
    let local = action_queue.take_queue();
    let enq = tick_queue.enqueue_actions_immediately(local);
    proof {
        assert(enq is Ok);
    }
    // Then every connected client's requests, in drain order.
    let ghost nq0 = *network_queue;
    let ghost clients0 = clients@;
    let ghost base_actions = tick_queue.tick_actions(t as int);
    let mut j: usize = 0;
    while j < clients.len()
        invariant
            0 <= j <= clients@.len(),
            clients@ == clients0,
            distinct_channels(clients0),
            channels_in_range(clients0),
            network_queue.wf(),
            tick_queue.wf(),
            tick_queue.gapless(),
            tick_queue.next_tick() == old(tick_queue).next_tick(),
            tick_queue.last_finalized() == old(tick_queue).last_finalized(),
            tick_queue.first_populated() == old(tick_queue).first_populated(),
            t == tick_queue.last_finalized() + 1,
            t < tick_queue.first_populated() + SLOT_COUNT,
            tick_queue.tick_actions(t as int) == base_actions + client_contributions(
                clients0.take(j as int),
                nq0,
            ),
            forall|u: int|
                u != t ==> #[trigger] tick_queue.tick_actions(u) == old(tick_queue).tick_actions(
                    u,
                ),
            forall|u: int|
                #[trigger] tick_queue.tick_state(u) == old(tick_queue).tick_state(u),
            forall|k: int|
                j <= k < clients0.len() ==> #[trigger] network_queue.inbound_of(
                    clients0[k].channel_id,
                ) == nq0.inbound_of(clients0[k].channel_id),
            forall|c: ChannelId| #[trigger] network_queue.outbound_of(c) == nq0.outbound_of(c),
        decreases clients@.len() - j,
    {
        proof {
            assert(clients0.take(j + 1) =~= clients0.take(j as int).push(clients0[j as int]));
            lemma_client_contributions_push(clients0.take(j as int), clients0[j as int], nq0);
        }
        let is_conn = clients[j].is_connected();
        if is_conn {
            let cid = clients[j].channel_id;
            proof {
                assert(nq0.inbound_of(cid) == network_queue.inbound_of(cid)) by {
                    assert(clients0[j as int].channel_id == cid);
                }
            }
            let msgs = network_queue.take_inbound(&cid, MessageKind::ScheduleActions);
            let ghost drained = msgs@;
            proof {
                let pred = |m: NetworkMessage| is_kind(m, MessageKind::ScheduleActions);
                assert forall|x: int| 0 <= x < drained.len() implies is_kind(
                    #[trigger] drained[x],
                    MessageKind::ScheduleActions,
                ) by {
                    nq0.inbound_of(cid).lemma_filter_pred(pred, x);
                }
            }
            let ghost tick_base = tick_queue.tick_actions(t as int);
            let mut incoming = msgs;
            proof {
                assert(incoming@ =~= drained.skip(0));
                reveal(Seq::filter);
                assert(schedule_payloads(drained.take(0)) =~= Seq::<Action>::empty());
                assert(tick_base + Seq::<Action>::empty() =~= tick_base);
            }
            while incoming.len() > 0
                invariant
                    incoming@.len() <= drained.len(),
                    incoming@ == drained.skip(drained.len() - incoming@.len()),
                    messages_wf(drained),
                    forall|x: int|
                        0 <= x < drained.len() ==> is_kind(
                            #[trigger] drained[x],
                            MessageKind::ScheduleActions,
                        ),
                    tick_queue.wf(),
                    tick_queue.gapless(),
                    tick_queue.next_tick() == old(tick_queue).next_tick(),
                    tick_queue.last_finalized() == old(tick_queue).last_finalized(),
                    tick_queue.first_populated() == old(tick_queue).first_populated(),
                    t == tick_queue.last_finalized() + 1,
                    t < tick_queue.first_populated() + SLOT_COUNT,
                    tick_queue.tick_actions(t as int) == tick_base + schedule_payloads(
                        drained.take(drained.len() - incoming@.len()),
                    ),
                    forall|u: int|
                        u != t ==> #[trigger] tick_queue.tick_actions(u) == old(
                            tick_queue,
                        ).tick_actions(u),
                    forall|u: int|
                        #[trigger] tick_queue.tick_state(u) == old(tick_queue).tick_state(u),
                decreases incoming@.len(),
            {
                let ghost k = drained.len() - incoming@.len();
                proof {
                    assert(incoming@[0] == drained[k as int]);
                    assert(drained.take(k + 1) =~= drained.take(k as int).push(drained[k as int]));
                    lemma_schedule_payloads_push(drained.take(k as int), drained[k as int]);
                }
                let m = incoming.remove(0);
                proof {
                    assert(m == drained[k as int]);
                    assert(incoming@ =~= drained.skip(k + 1));
                }
                match m {
                    NetworkMessage::ScheduleActions { actions } => {
                        let enq2 = tick_queue.enqueue_actions_immediately(actions);
                        proof {
                            assert(enq2 is Ok);
                        }
                    },
                    _ => {
                        // take_inbound returns only ScheduleActions.
                        proof {
                            assert(is_kind(m, MessageKind::ScheduleActions));
                            assert(false);
                        }
                    },
                }
            }
            proof {
                assert(drained.take(drained.len() as int) =~= drained);
                assert(client_contribution(clients0[j as int], nq0) == schedule_payloads(drained));
            }
        } else {
            proof {
                assert(client_contribution(clients0[j as int], nq0) =~= Seq::<Action>::empty());
                assert(tick_queue.tick_actions(t as int) + Seq::<Action>::empty()
                    =~= tick_queue.tick_actions(t as int));
            }
        }
        j = j + 1;
    }
    proof {
        assert(clients0.take(clients0.len() as int) =~= clients0);
    }
    // Agree on the tick.
    proof {
        assert(tick_queue.tick_state(t as int) == QueueSlotState::Pending);
    }
    let fin = tick_queue.finalize_tick(t);
    proof {
        assert(fin is Ok);
    }
    proof {
        crate::tick_queue::lemma_wf_bounds(*tick_queue);
    }
    // Fan the finalized stream out to every connected client.
    let last_sim: usize = tick_queue.get_last_simulated_tick();
    let mut min_sent: usize = last_sim;
    let ghost mid_queue = *tick_queue;
    let ghost nq1 = *network_queue;
    let mut i: usize = 0;
    while i < clients.len()
        invariant
            0 <= i <= clients@.len(),
            clients@.len() == clients0.len(),
            distinct_channels(clients0),
            channels_in_range(clients0),
            network_queue.wf(),
            *tick_queue == mid_queue,
            mid_queue.wf(),
            mid_queue.next_tick() == old(tick_queue).next_tick(),
            mid_queue.last_finalized() == t,
            t <= mid_queue.first_populated() + SLOT_COUNT,
            mid_queue.first_populated() + 2 * SLOT_COUNT <= usize::MAX,
            1 <= mid_queue.next_tick(),
            last_sim == mid_queue.next_tick() - 1,
            min_sent == last_sim,
            clients_track_queue(clients0, mid_queue),
            forall|k: int|
                0 <= k < clients0.len() ==> {
                    let oc = #[trigger] clients0[k];
                    let nc = clients@[k];
                    &&& nc.channel_id == oc.channel_id
                    &&& nc.player_id == oc.player_id
                    &&& nc.state() == oc.state()
                    &&& (k >= i ==> nc == oc)
                    &&& (k < i && oc.state() == ClientConnectionState::Connected
                        ==> nc.last_finalized_tick == t)
                    &&& (oc.state() != ClientConnectionState::Connected ==> nc == oc)
                },
            forall|k: int|
                0 <= k < clients0.len() && (#[trigger] clients0[k]).state()
                    == ClientConnectionState::Connected && k < i ==> message_views(
                    network_queue.outbound_of(clients0[k].channel_id),
                ) == message_views(nq1.outbound_of(clients0[k].channel_id)) + finalization_views(
                    mid_queue,
                    clients0[k].last_finalized_tick + 1,
                ),
            forall|k: int|
                i <= k < clients0.len() ==> #[trigger] network_queue.outbound_of(
                    clients0[k].channel_id,
                ) == nq1.outbound_of(clients0[k].channel_id),
            forall|c: ChannelId| #[trigger] network_queue.inbound_of(c) == nq1.inbound_of(c),
        decreases clients@.len() - i,
    {
        let is_conn = clients[i].is_connected();
        if is_conn {
            proof {
                let oc = clients0[i as int];
                assert(clients@[i as int] == oc);
                assert(oc.state() == ClientConnectionState::Connected);
                assert(mid_queue.next_tick() - 1 <= oc.last_finalized_tick);
                assert(oc.last_finalized_tick <= mid_queue.last_finalized());
            }
            let cid = clients[i].channel_id;
            let from: usize = clients[i].last_finalized_tick + 1;
            let (new_lft, msgs) = tick_queue.make_tick_finalization_messages(from);
            proof {
                let ms = msgs@;
                let fv = finalization_views(mid_queue, from as int);
                assert forall|x: int| 0 <= x < ms.len() implies #[trigger] ms[x]@ == fv[x] by {}
                assert(message_views(ms) =~= fv);
                assert(messages_wf(ms));
            }
            network_queue.send_many(&cid, msgs);
            proof {
                assert(message_views(nq1.outbound_of(cid) + msgs@) =~= message_views(
                    nq1.outbound_of(cid),
                ) + message_views(msgs@));
            }
            let mut me = ClientConnection::new(cid, clients[i].player_id);
            clients.set_and_swap(i, &mut me);
            me.last_finalized_tick = new_lft;
            clients.set(i, me);
            if new_lft < min_sent {
                min_sent = new_lft;
            }
        }
        i = i + 1;
    }
    // Recycle slots every peer has passed.
    if min_sent <= usize::MAX - 2 * SLOT_COUNT {
        tick_queue.reset_through(min_sent);
    }
    proof {
        let finq = *tick_queue;
        assert forall|j: int|
            0 <= j < clients0.len() && (#[trigger] clients0[j]).state()
                == ClientConnectionState::Connected implies message_views(
            network_queue.outbound_of(clients0[j].channel_id),
        ) == message_views(nq1.outbound_of(clients0[j].channel_id)) + finalization_views(
            finq,
            clients0[j].last_finalized_tick + 1,
        ) by {
            let from = clients0[j].last_finalized_tick + 1;
            assert(finalization_views(finq, from) =~= finalization_views(mid_queue, from));
        }
        assert forall|u: int|
            u >= old(tick_queue).next_tick() - 1 && u != t implies #[trigger] finq.tick_actions(u)
                == old(tick_queue).tick_actions(u) by {}
        assert(finq.tick_actions(t as int) == mid_queue.tick_actions(t as int));
        assert forall|x: int|
            0 <= x < clients@.len() && (#[trigger] clients@[x]).state()
                == ClientConnectionState::Connected implies {
            &&& finq.next_tick() - 1 <= clients@[x].last_finalized_tick
            &&& clients@[x].last_finalized_tick <= finq.last_finalized()
        } by {
            assert(clients@[x].state() == clients0[x].state());
            assert(clients@[x].last_finalized_tick == t);
        }
        assert forall|x: int, y: int|
            0 <= x < y < clients@.len() implies (#[trigger] clients@[x]).channel_id != (
        #[trigger] clients@[y]).channel_id by {
            assert(clients@[x].channel_id == clients0[x].channel_id);
            assert(clients@[y].channel_id == clients0[y].channel_id);
        }
        assert forall|x: int|
            0 <= x < clients@.len() implies (#[trigger] clients@[x]).channel_id.0 < usize::MAX by {
            assert(clients@[x].channel_id == clients0[x].channel_id);
        }
    }
    Ok(())
}

} // verus!
