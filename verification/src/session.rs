//! The top-level coordination state and the per-frame driver.
//!
//! A [`Session`] owns everything one participant needs: the world, the
//! tick queue, the action queue, the per-channel message queues and the
//! role state.  The embedding layer calls `frame` once per frame and
//! moves encoded byte frames between sessions (or over a real
//! transport); everything in between — scheduling, the join handshake,
//! simulation and checksumming — runs here, verified.

use crate::actions::{
    actions_wf, Action, PlayerAction, PlayerId, ResActionQueue, ResLocalPlayerId,
    ResPlayerIdGenerator,
};
use crate::client::{
    sys_client_pong_responder, sys_client_scheduler, sys_initial_connect, sys_receive_world_load,
    ClientJoinState, ConnectionToHost,
};
use crate::connection::{ClientConnection, ClientConnectionState};
use crate::host::{
    channels_in_range, clients_track_queue, distinct_channels, sys_host_scheduler,
    sys_ping_responder, sys_send_world,
};
use crate::messages::{message_views, ChannelId, MessageKind, NetworkMessage};
use crate::network_queue::ResNetworkQueue;
use crate::tick_queue::{ResTickQueue, SLOT_COUNT};
use crate::world::World;
use vstd::prelude::*;

verus! {

/// The role this process plays in a session.
#[derive(Clone, Copy, PartialEq, Eq, Structural, Debug)]
pub enum CoordinationState {
    /// No session.
    Disconnected,
    /// A solitary session: every tick is finalized locally.
    ConnectedLocal,
    /// This process decides tick finalization for everyone.
    Hosting,
    /// This process replays the host's finalized stream.
    ConnectedToHost,
}

/// Whether the simulation may advance.
#[derive(Clone, Copy, PartialEq, Eq, Structural, Debug)]
pub enum SimulationState {
    Paused,
    Running,
}

/// The degenerate scheduler of a solitary session: the next tick is
/// finalized immediately with whatever the local action queue holds.
/// With no peers there is nothing to wait for, so every frame
/// finalizes exactly one tick (unless the ring is out of room).
pub fn sys_local_scheduler(action_queue: &mut ResActionQueue, tick_queue: &mut ResTickQueue)
    requires
        old(tick_queue).wf(),
        old(tick_queue).gapless(),
        actions_wf(old(action_queue).view_queue()),
    ensures
        final(tick_queue).wf(),
        final(tick_queue).gapless(),
        final(tick_queue).next_tick() == old(tick_queue).next_tick(),
        final(tick_queue).first_populated() == old(tick_queue).first_populated(),
        final(tick_queue).last_finalized() >= old(tick_queue).last_finalized(),
        final(action_queue).view_queue() == old(action_queue).view_queue()
            || final(action_queue).view_queue() == Seq::<Action>::empty(),
        old(tick_queue).last_finalized() + 1 < old(tick_queue).first_populated() + SLOT_COUNT
            ==> {
            &&& final(tick_queue).last_finalized() == old(tick_queue).last_finalized() + 1
            &&& final(tick_queue).tick_actions(old(tick_queue).last_finalized() + 1) == old(
                tick_queue,
            ).tick_actions(old(tick_queue).last_finalized() + 1) + old(action_queue).view_queue()
            &&& final(action_queue).view_queue() == Seq::<Action>::empty()
        },
{
    proof {
        crate::tick_queue::lemma_wf_bounds(*old(tick_queue));
        crate::tick_queue::lemma_finalization_horizon(*old(tick_queue));
    }
    let t = tick_queue.next_unfinalized_tick();
    if t < tick_queue.get_first_populated() + SLOT_COUNT {
        let local = action_queue.take_queue();
        let r = tick_queue.finalize_tick_with_actions(t, local);
        proof {
            assert(r is Ok);
        }
    }
}

/// The world after simulating `n` consecutive ticks starting at
/// `from`, each applying that tick's agreed action list.
pub open spec fn world_after(
    s: Seq<crate::world::Entity>,
    q: ResTickQueue,
    from: int,
    n: nat,
) -> Seq<crate::world::Entity>
    decreases n,
{
    if n == 0 {
        s
    } else {
        crate::world::step_world(
            world_after(s, q, from, (n - 1) as nat),
            q.tick_actions(from + n - 1),
        )
    }
}

/// The largest tick a frame may simulate through: the finalization
/// horizon, held back to what every connected client has already been
/// sent.
pub open spec fn sim_horizon_of(clients: Seq<ClientConnection>, q: ResTickQueue) -> int
    decreases clients.len(),
{
    if clients.len() == 0 {
        q.last_finalized()
    } else {
        let rest = sim_horizon_of(clients.drop_last(), q);
        let c = clients.last();
        if c.state() == ClientConnectionState::Connected && c.last_finalized_tick < rest {
            c.last_finalized_tick as int
        } else {
            rest
        }
    }
}

/// Where the simulation point stands after one frame's catch-up: past
/// the horizon, unless the ring window stops it earlier.
pub open spec fn sim_stop(q: ResTickQueue, horizon: int) -> int {
    if horizon < q.next_tick() {
        q.next_tick()
    } else if horizon + 1 <= q.first_populated() + SLOT_COUNT {
        horizon + 1
    } else {
        q.first_populated() + SLOT_COUNT
    }
}

/// The world snapshots waiting in a channel's inbound queue, in
/// arrival order.
pub open spec fn pending_world_messages(nq: ResNetworkQueue, c: ChannelId) -> Seq<
    NetworkMessage,
> {
    nq.inbound_of(c).filter(
        |m: NetworkMessage| crate::network_queue::is_kind(m, MessageKind::World),
    )
}

/// Whether a `World` message carries a whole, loadable snapshot.
pub open spec fn world_message_loads(m: NetworkMessage) -> bool {
    m matches NetworkMessage::World(w) && match crate::world::dec_world(w.scene@) {
        Some(pr) => pr.1.len() == 0,
        None => false,
    }
}

/// Whether a `World` message's tick is within the machine limit for
/// re-basing the tick queue.
pub open spec fn world_message_tick_ok(m: NetworkMessage) -> bool {
    m matches NetworkMessage::World(w) && w.last_simulated_tick <= usize::MAX - 2 * SLOT_COUNT
}

/// One participant's entire coordination state.
pub struct Session {
    coordination: CoordinationState,
    simulation: SimulationState,
    join_state: ClientJoinState,
    action_queue: ResActionQueue,
    tick_queue: ResTickQueue,
    network_queue: ResNetworkQueue,
    world: World,
    clients: Vec<ClientConnection>,
    connection_to_host: Option<ConnectionToHost>,
    local_player: ResLocalPlayerId,
    player_ids: ResPlayerIdGenerator,
    next_channel: usize,
    last_tick_hash: u64,
    hash_log: Vec<(usize, u64)>,
}

impl Session {
    /// The session's internal invariant: every owned component is well
    /// formed and the host's view of its clients agrees with the tick
    /// queue.
    pub closed spec fn wf(self) -> bool {
        &&& self.tick_queue.wf()
        &&& self.tick_queue.gapless()
        &&& self.network_queue.wf()
        &&& self.world.wf()
        &&& actions_wf(self.action_queue.view_queue())
        &&& distinct_channels(self.clients@)
        &&& channels_in_range(self.clients@)
        &&& clients_track_queue(self.clients@, self.tick_queue)
        &&& forall|i: int|
            0 <= i < self.clients@.len() ==> (#[trigger] self.clients@[i]).channel_id.0
                <= self.next_channel
        &&& match self.connection_to_host {
            Some(c) => c.wf() && c.channel_id.0 < usize::MAX,
            None => true,
        }
    }

    /// The current role.
    pub closed spec fn spec_coordination(self) -> CoordinationState {
        self.coordination
    }

    /// How many channels have been allocated.
    pub closed spec fn spec_next_channel(self) -> int {
        self.next_channel as int
    }

    /// How many player identities have been allocated.
    pub closed spec fn spec_next_player(self) -> int {
        self.player_ids.spec_next_id()
    }

    /// How many entities the world holds.
    pub closed spec fn spec_entity_count(self) -> int {
        self.world.entities@.len() as int
    }

    /// The tick queue, for contracts.
    pub closed spec fn spec_tick_queue(self) -> ResTickQueue {
        self.tick_queue
    }

    /// The per-channel message queues, for contracts.
    pub closed spec fn spec_network_queue(self) -> ResNetworkQueue {
        self.network_queue
    }

    /// The world's entities, for contracts.
    pub closed spec fn spec_world_entities(self) -> Seq<crate::world::Entity> {
        self.world.entities@
    }

    /// The local action queue, for contracts.
    pub closed spec fn spec_action_queue(self) -> Seq<Action> {
        self.action_queue.view_queue()
    }

    /// The host's client table, for contracts.
    pub closed spec fn spec_clients(self) -> Seq<ClientConnection> {
        self.clients@
    }

    /// Whether the simulation may advance.
    pub closed spec fn spec_simulation(self) -> SimulationState {
        self.simulation
    }

    /// The client's join lifecycle.
    pub closed spec fn spec_join_state(self) -> ClientJoinState {
        self.join_state
    }

    /// The host-assigned local identity, once known.
    pub closed spec fn spec_local_player(self) -> Option<PlayerId> {
        self.local_player.0
    }

    /// The checksum recorded after the most recent simulated tick.
    pub closed spec fn spec_last_tick_hash(self) -> u64 {
        self.last_tick_hash
    }

    /// The recorded `(tick, checksum)` pairs, for contracts.
    pub closed spec fn spec_hash_log(self) -> Seq<(usize, u64)> {
        self.hash_log@
    }

    /// The link to the host, for contracts.
    pub closed spec fn spec_connection_to_host(self) -> Option<ConnectionToHost> {
        self.connection_to_host
    }

    /// A fresh, disconnected session.
    pub fn new() -> (r: Session)
        ensures
            r.wf(),
            r.spec_coordination() == CoordinationState::Disconnected,
    {
        Session {
            coordination: CoordinationState::Disconnected,
            simulation: SimulationState::Paused,
            join_state: ClientJoinState::NonClient,
            action_queue: ResActionQueue::new(),
            tick_queue: ResTickQueue::new(),
            network_queue: ResNetworkQueue::new(),
            world: World::new(),
            clients: Vec::new(),
            connection_to_host: None,
            local_player: ResLocalPlayerId(None),
            player_ids: ResPlayerIdGenerator::new(),
            next_channel: 0,
            last_tick_hash: 0,
            hash_log: Vec::new(),
        }
    }

    /// The current role.
    pub fn coordination_state(&self) -> (r: CoordinationState)
        ensures
            r == self.spec_coordination(),
    {
        self.coordination
    }

    /// Whether the simulation is running.
    pub fn is_running(&self) -> (r: bool)
        ensures
            r == (self.spec_simulation() == SimulationState::Running),
    {
        matches!(self.simulation, SimulationState::Running)
    }

    /// The identity the host assigned to this process, once known.
    pub fn local_player_id(&self) -> (r: Option<PlayerId>)
        ensures
            r == self.spec_local_player(),
    {
        self.local_player.0
    }

    /// The last simulated tick.
    pub fn last_simulated_tick(&self) -> (r: usize)
        requires
            self.wf(),
        ensures
            r == self.spec_tick_queue().next_tick() - 1,
    {
        self.tick_queue.get_last_simulated_tick()
    }

    /// The finalization horizon.
    pub fn last_finalized_tick(&self) -> (r: usize)
        ensures
            r == self.spec_tick_queue().last_finalized(),
    {
        self.tick_queue.get_last_finalized_tick()
    }

    /// The checksum recorded after the most recent simulated tick.
    pub fn last_tick_hash(&self) -> (r: u64)
        ensures
            r == self.spec_last_tick_hash(),
    {
        self.last_tick_hash
    }

    /// Every `(tick, checksum)` pair recorded so far, in tick order.
    pub fn tick_hash_log(&self) -> (r: &Vec<(usize, u64)>)
        ensures
            r@ == self.spec_hash_log(),
    {
        &self.hash_log
    }

    /// The world's current checksum.
    pub fn hash_world(&self) -> (r: u64)
        ensures
            r == crate::world::world_hash(self.spec_world_entities()),
    {
        self.world.hash_world()
    }

    /// Direct access to the world, for observers.
    pub fn world(&self) -> (r: &World)
        ensures
            r.entities@ == self.spec_world_entities(),
    {
        &self.world
    }

    /// Perturbs one entity's velocity in place: a deliberate fault
    /// injection for divergence experiments.  Returns false when no
    /// such entity exists.
    pub fn perturb_entity_velocity(&mut self, index: usize, raw_delta: i64) -> (r: bool)
        requires
            old(self).wf(),
        ensures
            final(self).wf(),
            r == (index < old(self).spec_entity_count()),
            !r ==> final(self).spec_world_entities() == old(self).spec_world_entities(),
            r ==> {
                &&& final(self).spec_world_entities().len() == old(self).spec_world_entities().len()
                &&& forall|i: int|
                    0 <= i < old(self).spec_world_entities().len() && i != index
                        ==> #[trigger] final(self).spec_world_entities()[i] == old(self).spec_world_entities()[i]
                &&& final(self).spec_world_entities()[index as int].velocity.vx.raw as int == (
                if crate::world::in_i64(
                    old(self).spec_world_entities()[index as int].velocity.vx.raw + raw_delta,
                ) {
                    old(self).spec_world_entities()[index as int].velocity.vx.raw + raw_delta
                } else {
                    old(self).spec_world_entities()[index as int].velocity.vx.raw as int
                })
            },
    {
        if index >= self.world.entities.len() {
            return false;
        }
        let e = self.world.entities[index];
        let vx = match e.velocity.vx.checked_add(
            crate::fixed_point::FixedPoint::from_raw(raw_delta),
        ) {
            Some(v) => v,
            None => e.velocity.vx,
        };
        let updated = crate::world::Entity {
            velocity: crate::world::Velocity { vx, vy: e.velocity.vy },
            ..e
        };
        proof {
            assert(updated.wf()) by {
                assert(self.world.entities@[index as int].wf());
            }
        }
        vstd::pervasive::VecAdditionalExecFns::set(&mut self.world.entities, index, updated);
        proof {
            assert(crate::world::entities_wf(self.world.entities@)) by {
                assert forall|i: int| 0 <= i < self.world.entities@.len() implies (
                #[trigger] self.world.entities@[i]).wf() by {
                    if i != index {
                        assert(self.world.entities@[i] == old(self).world.entities@[i]);
                    }
                }
            }
        }
        true
    }

    /// Queues a local player intent, tagged with the local identity
    /// (players without an assigned identity are the host or the
    /// solitary player, identity 0).
    pub fn add_action(&mut self, action: PlayerAction)
        requires
            old(self).wf(),
            action.wf(),
        ensures
            final(self).wf(),
            final(self).spec_action_queue() == old(self).spec_action_queue().push(
                Action::PlayerAction {
                    action,
                    player_id: match old(self).spec_local_player() {
                        Some(p) => p,
                        None => PlayerId(0),
                    },
                },
            ),
            final(self).spec_tick_queue() == old(self).spec_tick_queue(),
            final(self).spec_world_entities() == old(self).spec_world_entities(),
            final(self).spec_network_queue() == old(self).spec_network_queue(),
    {
        let pid = match self.local_player.0 {
            Some(p) => p,
            None => PlayerId(0),
        };
        let ghost before = self.action_queue.view_queue();
        self.action_queue.add_action(action.for_player(pid));
        proof {
            assert(actions_wf(self.action_queue.view_queue())) by {
                assert forall|i: int|
                    0 <= i < self.action_queue.view_queue().len() implies (
                #[trigger] self.action_queue.view_queue()[i]).wf() by {
                    if i < before.len() {
                        assert(self.action_queue.view_queue()[i] == before[i]);
                    }
                }
            }
        }
    }

    /// Starts a solitary session: the world is seeded and every tick
    /// will be finalized locally.
    pub fn connect_local(&mut self)
        requires
            old(self).wf(),
        ensures
            final(self).wf(),
            final(self).spec_coordination() == CoordinationState::ConnectedLocal,
            final(self).spec_simulation() == SimulationState::Running,
            final(self).spec_world_entities().len() == 9,
            final(self).spec_tick_queue() == old(self).spec_tick_queue(),
            final(self).spec_action_queue() == old(self).spec_action_queue(),
            final(self).spec_clients() == old(self).spec_clients(),
    {
        self.world = World::init_demo();
        self.simulation = SimulationState::Running;
        self.coordination = CoordinationState::ConnectedLocal;
    }

    /// Starts a hosting session that clients can join.
    pub fn connect_as_host(&mut self)
        requires
            old(self).wf(),
        ensures
            final(self).wf(),
            final(self).spec_coordination() == CoordinationState::Hosting,
            final(self).spec_simulation() == SimulationState::Running,
            final(self).spec_world_entities().len() == 9,
            final(self).spec_tick_queue() == old(self).spec_tick_queue(),
            final(self).spec_action_queue() == old(self).spec_action_queue(),
            final(self).spec_clients() == old(self).spec_clients(),
    {
        self.world = World::init_demo();
        self.simulation = SimulationState::Running;
        self.coordination = CoordinationState::Hosting;
    }

    /// Registers a new client channel on a hosting session and
    /// allocates the client's player identity.  Returns the channel
    /// the transport must deliver to.
    pub fn add_client_as_host(&mut self) -> (r: ChannelId)
        requires
            old(self).wf(),
            old(self).spec_next_channel() < usize::MAX - 1,
            old(self).spec_next_player() < usize::MAX,
        ensures
            final(self).wf(),
            // A fresh channel: larger than every id handed out before.
            r.0 == old(self).spec_next_channel() + 1,
            final(self).spec_next_channel() == old(self).spec_next_channel() + 1,
            forall|i: int|
                0 <= i < old(self).spec_clients().len()
                    ==> (#[trigger] old(self).spec_clients()[i]).channel_id.0 < r.0,
            // One new record, waiting for the client's hello, with a
            // freshly allocated player identity.
            final(self).spec_next_player() == old(self).spec_next_player() + 1,
            final(self).spec_clients().len() == old(self).spec_clients().len() + 1,
            forall|i: int|
                0 <= i < old(self).spec_clients().len()
                    ==> #[trigger] final(self).spec_clients()[i] == old(self).spec_clients()[i],
            final(self).spec_clients().last().channel_id == r,
            final(self).spec_clients().last().player_id == PlayerId(
                old(self).spec_next_player() as usize,
            ),
            final(self).spec_clients().last().state() == ClientConnectionState::WaitingForHello,
            final(self).spec_clients().last().last_finalized_tick == 0,
            final(self).spec_tick_queue() == old(self).spec_tick_queue(),
            final(self).spec_network_queue() == old(self).spec_network_queue(),
    {
        self.next_channel = self.next_channel + 1;
        let cid = ChannelId(self.next_channel);
        let pid = self.player_ids.get_next_id();
        let ghost before = self.clients@;
        self.clients.push(ClientConnection::new(cid, pid));
        proof {
            crate::tick_queue::lemma_wf_bounds(self.tick_queue);
            assert forall|i: int, j: int|
                0 <= i < j < self.clients@.len() implies (#[trigger] self.clients@[i]).channel_id
                    != (#[trigger] self.clients@[j]).channel_id by {
                if j < before.len() {
                } else {
                    assert(self.clients@[j].channel_id.0 == self.next_channel);
                    assert(self.clients@[i].channel_id.0 <= old(self).spec_next_channel());
                }
            }
        }
        cid
    }

    /// Connects this session to a host as a client; the join
    /// handshake starts on the next frame.  Returns the channel the
    /// transport must deliver to.
    pub fn connect_as_client(&mut self) -> (r: ChannelId)
        requires
            old(self).wf(),
            old(self).spec_next_channel() < usize::MAX - 1,
        ensures
            final(self).wf(),
            final(self).spec_coordination() == CoordinationState::ConnectedToHost,
            final(self).spec_join_state() == ClientJoinState::NeedsSendInitialPing,
            r.0 == old(self).spec_next_channel() + 1,
            final(self).spec_next_channel() == old(self).spec_next_channel() + 1,
            (final(self).spec_connection_to_host() matches Some(c) && c.channel_id == r
                && c.buffered_messages@ == Seq::<NetworkMessage>::empty()),
            final(self).spec_tick_queue() == old(self).spec_tick_queue(),
            final(self).spec_world_entities() == old(self).spec_world_entities(),
            final(self).spec_simulation() == old(self).spec_simulation(),
    {
        self.next_channel = self.next_channel + 1;
        let cid = ChannelId(self.next_channel);
        self.connection_to_host = Some(ConnectionToHost::new(cid));
        self.join_state = ClientJoinState::NeedsSendInitialPing;
        self.coordination = CoordinationState::ConnectedToHost;
        cid
    }

    /// Flushes every pending outbound queue into encoded byte frames,
    /// one frame per channel with traffic, and leaves every outbound
    /// queue empty.  This is the only point where protocol state
    /// leaves the session.
    pub fn take_outbound_frames(&mut self) -> (r: Vec<(ChannelId, Vec<u8>)>)
        requires
            old(self).wf(),
        ensures
            final(self).wf(),
            // Every produced frame is exactly the wire form of what was
            // queued for its channel, and only channels with traffic
            // produce one.
            forall|i: int|
                0 <= i < r@.len() ==> (#[trigger] r@[i]).1@ == crate::codec::enc_frame(
                    old(self).spec_network_queue().outbound_of(r@[i].0),
                ) && old(self).spec_network_queue().outbound_of(r@[i].0).len() > 0,
            // Every channel with traffic is flushed.
            forall|c: ChannelId|
                old(self).spec_network_queue().outbound_of(c).len() > 0 ==> exists|i: int|
                    0 <= i < r@.len() && (#[trigger] r@[i]).0 == c,
            forall|c: ChannelId| #[trigger] final(self).spec_network_queue().outbound_of(c)
                == Seq::<NetworkMessage>::empty(),
            forall|c: ChannelId| #[trigger] final(self).spec_network_queue().inbound_of(c) == old(self).spec_network_queue().inbound_of(c),
            // Nothing else moves.
            final(self).spec_tick_queue() == old(self).spec_tick_queue(),
            final(self).spec_world_entities() == old(self).spec_world_entities(),
            final(self).spec_clients() == old(self).spec_clients(),
            final(self).spec_coordination() == old(self).spec_coordination(),
            final(self).spec_simulation() == old(self).spec_simulation(),
            final(self).spec_join_state() == old(self).spec_join_state(),
            final(self).spec_action_queue() == old(self).spec_action_queue(),
            final(self).spec_hash_log() == old(self).spec_hash_log(),
            final(self).spec_connection_to_host() == old(self).spec_connection_to_host(),
    {
        let ghost nq0 = self.network_queue;
        let entries = self.network_queue.take_outbound();
        let ghost entries0 = entries@;
        let mut frames: Vec<(ChannelId, Vec<u8>)> = Vec::new();
        let mut incoming = entries;
        while incoming.len() > 0
            invariant
                incoming@.len() <= entries0.len(),
                incoming@ == entries0.skip(entries0.len() - incoming@.len()),
                forall|jj: int|
                    0 <= jj < entries0.len() ==> (#[trigger] entries0[jj]).1@
                        == nq0.outbound_of(entries0[jj].0),
                forall|j: int|
                    0 <= j < frames@.len() ==> (#[trigger] frames@[j]).1@
                        == crate::codec::enc_frame(nq0.outbound_of(frames@[j].0))
                        && nq0.outbound_of(frames@[j].0).len() > 0,
                forall|jj: int|
                    0 <= jj < entries0.len() - incoming@.len() && (
                    #[trigger] entries0[jj]).1@.len() > 0 ==> exists|x: int|
                        0 <= x < frames@.len() && (#[trigger] frames@[x]).0 == entries0[jj].0,
            decreases incoming@.len(),
        {
            let ghost k = entries0.len() - incoming@.len();
            let ghost frames_pre = frames@;
            proof {
                assert(incoming@[0] == entries0[k as int]);
            }
            let (cid, msgs) = incoming.remove(0);
            proof {
                assert(incoming@ =~= entries0.skip(k + 1));
                assert(cid == entries0[k as int].0);
                assert(msgs == entries0[k as int].1);
            }
            if msgs.len() > 0 {
                let bytes = crate::codec::encode_frame(&msgs);
                frames.push((cid, bytes));
            }
            proof {
                let fl = frames@;
                assert forall|jj: int|
                    0 <= jj < k + 1 && (#[trigger] entries0[jj]).1@.len() > 0 implies exists|
                    x: int,
                |
                    0 <= x < fl.len() && (#[trigger] fl[x]).0 == entries0[jj].0 by {
                    if jj < k {
                        let x0 = choose|x0: int|
                            0 <= x0 < frames_pre.len() && (#[trigger] frames_pre[x0]).0
                                == entries0[jj].0;
                        assert(fl[x0].0 == entries0[jj].0);
                    } else {
                        assert(fl[fl.len() - 1].0 == cid);
                    }
                }
            }
        }
        proof {
            assert forall|c: ChannelId|
                nq0.outbound_of(c).len() > 0 implies exists|i: int|
                    0 <= i < frames@.len() && (#[trigger] frames@[i]).0 == c by {
                let jj = choose|jj: int|
                    0 <= jj < entries0.len() && (#[trigger] entries0[jj]).0 == c;
                assert(entries0[jj].1@ == nq0.outbound_of(c));
            }
        }
        frames
    }

    /// Takes one received byte frame into the session: accepted (and
    /// queued inbound) exactly when the bytes are one whole frame.  A
    /// malformed frame is fatal for the peer that sent it: the host
    /// disconnects that client; a client drops the session.
    pub fn deliver_frame(&mut self, channel: ChannelId, bytes: &Vec<u8>) -> (r: bool)
        requires
            old(self).wf(),
        ensures
            final(self).wf(),
            r == (channel.0 < usize::MAX && match crate::codec::dec_frame(bytes@) {
                Some(pr) => pr.1.len() == 0,
                None => false,
            }),
            // An accepted frame lands its messages, in order, on the
            // channel it arrived on; nothing else moves.
            r ==> {
                &&& (crate::codec::dec_frame(bytes@) matches Some(pr) && message_views(
                    final(self).spec_network_queue().inbound_of(channel),
                ) == message_views(old(self).spec_network_queue().inbound_of(channel)) + pr.0)
                &&& forall|c: ChannelId|
                    c != channel ==> #[trigger] final(self).spec_network_queue().inbound_of(c)
                        == old(self).spec_network_queue().inbound_of(c)
                &&& forall|c: ChannelId|
                    #[trigger] final(self).spec_network_queue().outbound_of(c) == old(self).spec_network_queue().outbound_of(c)
                &&& final(self).spec_clients() == old(self).spec_clients()
                &&& final(self).spec_coordination() == old(self).spec_coordination()
                &&& final(self).spec_simulation() == old(self).spec_simulation()
            },
            // A refused frame queues nothing.
            !r ==> final(self).spec_network_queue() == old(self).spec_network_queue(),
            !r && channel.0 >= usize::MAX ==> *final(self) == *old(self),
            // The protocol-error policy: the host severs exactly the
            // offending client; anyone else drops the session.
            !r && channel.0 < usize::MAX ==> {
                &&& (old(self).spec_coordination() == CoordinationState::Hosting ==> {
                    &&& final(self).spec_coordination() == CoordinationState::Hosting
                    &&& final(self).spec_clients().len() == old(self).spec_clients().len()
                    &&& forall|k: int|
                        0 <= k < old(self).spec_clients().len() ==> {
                            let oc = #[trigger] old(self).spec_clients()[k];
                            let nc = final(self).spec_clients()[k];
                            &&& (oc.channel_id.0 == channel.0 ==> {
                                &&& nc.state() == ClientConnectionState::Disconnected
                                &&& nc.channel_id == oc.channel_id
                                &&& nc.player_id == oc.player_id
                                &&& nc.last_finalized_tick == oc.last_finalized_tick
                            })
                            &&& (oc.channel_id.0 != channel.0 ==> nc == oc)
                        }
                })
                &&& (old(self).spec_coordination() != CoordinationState::Hosting ==> {
                    &&& final(self).spec_coordination() == CoordinationState::Disconnected
                    &&& final(self).spec_simulation() == SimulationState::Paused
                    &&& final(self).spec_clients() == old(self).spec_clients()
                })
            },
            final(self).spec_tick_queue() == old(self).spec_tick_queue(),
            final(self).spec_world_entities() == old(self).spec_world_entities(),
            final(self).spec_hash_log() == old(self).spec_hash_log(),
            final(self).spec_connection_to_host() == old(self).spec_connection_to_host(),
    {
        if channel.0 >= usize::MAX {
            return false;
        }
        match crate::codec::decode_frame(bytes) {
            Some(messages) => {
                self.network_queue.on_messages(channel, messages);
                true
            },
            None => {
                // Protocol error: a malformed frame poisons only the
                // peer that sent it.
                match self.coordination {
                    CoordinationState::Hosting => {
                        let ghost before = self.clients@;
                        disconnect_channel(&mut self.clients, channel);
                        proof {
                            assert forall|x: int, y: int|
                                0 <= x < y < self.clients@.len() implies (
                            #[trigger] self.clients@[x]).channel_id != (
                            #[trigger] self.clients@[y]).channel_id by {
                                assert(self.clients@[x].channel_id == before[x].channel_id);
                                assert(self.clients@[y].channel_id == before[y].channel_id);
                            }
                            assert forall|x: int|
                                0 <= x < self.clients@.len() implies (
                            #[trigger] self.clients@[x]).channel_id.0 < usize::MAX by {
                                assert(self.clients@[x].channel_id == before[x].channel_id);
                            }
                            assert forall|x: int|
                                0 <= x < self.clients@.len() implies (
                            #[trigger] self.clients@[x]).channel_id.0 <= self.next_channel by {
                                assert(self.clients@[x].channel_id == before[x].channel_id);
                            }
                            assert forall|x: int|
                                0 <= x < self.clients@.len() && (
                            #[trigger] self.clients@[x]).state()
                                    == ClientConnectionState::Connected implies {
                                &&& self.tick_queue.next_tick() - 1
                                    <= self.clients@[x].last_finalized_tick
                                &&& self.clients@[x].last_finalized_tick
                                    <= self.tick_queue.last_finalized()
                            } by {
                                assert(before[x].state() == ClientConnectionState::Connected);
                                assert(self.clients@[x].last_finalized_tick
                                    == before[x].last_finalized_tick);
                            }
                        }
                    },
                    _ => {
                        self.coordination = CoordinationState::Disconnected;
                        self.simulation = SimulationState::Paused;
                    },
                }
                false
            },
        }
    }

    /// Runs one frame: the role's scheduler, then as many simulation
    /// steps as the finalization horizon allows, each applying the
    /// current tick's actions to the world and recording its checksum.
    ///
    /// For the solitary role the whole frame is pinned down: with the
    /// simulation running, ring room, and the queue caught up, exactly
    /// one tick is finalized from the drained action queue, simulated
    /// against the world, and checksummed into the log.
    pub fn frame(&mut self)
        requires
            old(self).wf(),
        ensures
            final(self).wf(),
            old(self).spec_coordination() == CoordinationState::Disconnected ==> *final(self)
                == *old(self),
            final(self).spec_coordination() == old(self).spec_coordination() || final(self).spec_coordination() == CoordinationState::Disconnected,
            // The join handshake, visible at the driver: a joining
            // client that received a loadable snapshot comes up
            // connected and running; a bad snapshot aborts the join.
            (old(self).spec_coordination() == CoordinationState::ConnectedToHost && old(self).spec_join_state() == ClientJoinState::WaitingForWorld && (old(self).spec_connection_to_host() matches Some(c)
                && pending_world_messages(old(self).spec_network_queue(), c.channel_id).len() > 0
                && !world_message_loads(
                pending_world_messages(old(self).spec_network_queue(), c.channel_id).last(),
            ))) ==> final(self).spec_coordination() == CoordinationState::Disconnected && final(self).spec_simulation() == SimulationState::Paused,
            (old(self).spec_coordination() == CoordinationState::ConnectedToHost && old(self).spec_join_state() == ClientJoinState::WaitingForWorld && old(self).spec_clients().len() == 0 && (old(self).spec_connection_to_host() matches Some(c)
                && pending_world_messages(old(self).spec_network_queue(), c.channel_id).len() > 0
                && world_message_loads(
                pending_world_messages(old(self).spec_network_queue(), c.channel_id).last(),
            ) && world_message_tick_ok(
                pending_world_messages(old(self).spec_network_queue(), c.channel_id).last(),
            ))) ==> {
                &&& final(self).spec_join_state() == ClientJoinState::Connected
                &&& (final(self).spec_coordination() == CoordinationState::ConnectedToHost
                    ==> final(self).spec_simulation() == SimulationState::Running)
            },
            (old(self).spec_coordination() == CoordinationState::ConnectedLocal && old(self).spec_simulation() == SimulationState::Running && old(self).spec_clients().len() == 0
                && old(self).spec_tick_queue().last_finalized() + 1 < old(self).spec_tick_queue().first_populated() + SLOT_COUNT && old(self).spec_tick_queue().next_tick() == old(self).spec_tick_queue().last_finalized() + 1)
                ==> {
                let t = old(self).spec_tick_queue().last_finalized() + 1;
                &&& final(self).spec_tick_queue().next_tick() == t + 1
                &&& final(self).spec_tick_queue().last_finalized() == t
                &&& final(self).spec_tick_queue().tick_state(t)
                    == crate::tick_queue::QueueSlotState::Simulated
                &&& final(self).spec_world_entities() == crate::world::step_world(
                    old(self).spec_world_entities(),
                    old(self).spec_tick_queue().tick_actions(t) + old(self).spec_action_queue(),
                )
                &&& final(self).spec_hash_log() == old(self).spec_hash_log().push(
                    (
                        t as usize,
                        crate::world::world_hash(final(self).spec_world_entities()),
                    ),
                )
                &&& final(self).spec_last_tick_hash() == crate::world::world_hash(
                    final(self).spec_world_entities(),
                )
                &&& final(self).spec_action_queue() == Seq::<Action>::empty()
            },
    {
        match self.coordination {
            CoordinationState::Disconnected => {},
            CoordinationState::ConnectedLocal => {
                sys_local_scheduler(&mut self.action_queue, &mut self.tick_queue);
                proof {
                    assert(clients_track_queue(self.clients@, self.tick_queue)) by {
                        assert forall|i: int|
                            0 <= i < self.clients@.len() && (
                            #[trigger] self.clients@[i]).state()
                                == ClientConnectionState::Connected implies {
                            &&& self.tick_queue.next_tick() - 1
                                <= self.clients@[i].last_finalized_tick
                            &&& self.clients@[i].last_finalized_tick
                                <= self.tick_queue.last_finalized()
                        } by {}
                    }
                }
                let ghost mid_q = self.tick_queue;
                let ghost mid_w = self.world.entities@;
                let ghost mid_log = self.hash_log@;
                self.run_simulation();
                proof {
                    let oldq = old(self).spec_tick_queue();
                    if old(self).spec_simulation() == SimulationState::Running && old(self).spec_clients().len() == 0 && oldq.last_finalized() + 1
                        < oldq.first_populated() + SLOT_COUNT && oldq.next_tick()
                        == oldq.last_finalized() + 1 {
                        let t = oldq.last_finalized() + 1;
                        assert(mid_q.last_finalized() == t);
                        assert(mid_q.next_tick() == t);
                        assert(sim_horizon_of(old(self).spec_clients(), mid_q) == t);
                        assert(sim_stop(mid_q, t) == t + 1);
                        assert(self.world.entities@ == world_after(mid_w, mid_q, t, 1));
                        assert(world_after(mid_w, mid_q, t, 1) == crate::world::step_world(
                            world_after(mid_w, mid_q, t, 0),
                            mid_q.tick_actions(t),
                        ));
                        assert(self.world.entities@ == crate::world::step_world(
                            old(self).spec_world_entities(),
                            oldq.tick_actions(t) + old(self).spec_action_queue(),
                        ));
                        assert(self.hash_log@ =~= mid_log.push(
                            (
                                t as usize,
                                crate::world::world_hash(self.world.entities@),
                            ),
                        ));
                        crate::tick_queue::lemma_simulated_prefix(self.tick_queue, t);
                    }
                }
            },
            CoordinationState::Hosting => {
                let ghost before_ping = self.clients@;
                sys_ping_responder(&mut self.network_queue, &mut self.clients);
                proof {
                    assert forall|x: int|
                        0 <= x < self.clients@.len() && (#[trigger] self.clients@[x]).state()
                            == ClientConnectionState::Connected implies {
                        &&& self.tick_queue.next_tick() - 1
                            <= self.clients@[x].last_finalized_tick
                        &&& self.clients@[x].last_finalized_tick
                            <= self.tick_queue.last_finalized()
                    } by {
                        assert(before_ping[x].state() == ClientConnectionState::Connected);
                        assert(self.clients@[x].last_finalized_tick
                            == before_ping[x].last_finalized_tick);
                    }
                    assert forall|x: int|
                        0 <= x < self.clients@.len() implies (
                    #[trigger] self.clients@[x]).channel_id.0 <= self.next_channel by {
                        assert(self.clients@[x].channel_id == before_ping[x].channel_id);
                    }
                }
                let ghost before_send = self.clients@;
                let scene = self.world.serialize_world();
                sys_send_world(
                    &self.tick_queue,
                    &mut self.network_queue,
                    &mut self.clients,
                    &mut self.action_queue,
                    &scene,
                );
                proof {
                    assert forall|x: int|
                        0 <= x < self.clients@.len() implies (
                    #[trigger] self.clients@[x]).channel_id.0 <= self.next_channel by {
                        assert(self.clients@[x].channel_id == before_send[x].channel_id);
                    }
                }
                let ghost before_sched = self.clients@;
                let r = sys_host_scheduler(
                    &mut self.action_queue,
                    &mut self.network_queue,
                    &mut self.tick_queue,
                    &mut self.clients,
                );
                proof {
                    if r is Ok {
                        assert forall|x: int|
                            0 <= x < self.clients@.len() implies (
                        #[trigger] self.clients@[x]).channel_id.0 <= self.next_channel by {
                            assert(self.clients@[x].channel_id == before_sched[x].channel_id);
                        }
                    }
                }
                self.run_simulation();
            },
            CoordinationState::ConnectedToHost => {
                self.client_frame();
                self.run_simulation();
            },
        }
    }

    /// The client's part of a frame: join handshake, then the client
    /// scheduler.
    fn client_frame(&mut self)
        requires
            old(self).wf(),
            old(self).spec_coordination() == CoordinationState::ConnectedToHost,
        ensures
            final(self).wf(),
            final(self).spec_coordination() == CoordinationState::ConnectedToHost || final(self).spec_coordination() == CoordinationState::Disconnected,
            (old(self).spec_join_state() == ClientJoinState::WaitingForWorld && (old(self).spec_connection_to_host() matches Some(c)
                && pending_world_messages(old(self).spec_network_queue(), c.channel_id).len() > 0
                && !world_message_loads(
                pending_world_messages(old(self).spec_network_queue(), c.channel_id).last(),
            ))) ==> final(self).spec_coordination() == CoordinationState::Disconnected && final(self).spec_simulation() == SimulationState::Paused,
            (old(self).spec_join_state() == ClientJoinState::WaitingForWorld && old(self).spec_clients().len() == 0 && (old(self).spec_connection_to_host() matches Some(c)
                && pending_world_messages(old(self).spec_network_queue(), c.channel_id).len() > 0
                && world_message_loads(
                pending_world_messages(old(self).spec_network_queue(), c.channel_id).last(),
            ) && world_message_tick_ok(
                pending_world_messages(old(self).spec_network_queue(), c.channel_id).last(),
            ))) ==> {
                &&& final(self).spec_join_state() == ClientJoinState::Connected
                &&& (final(self).spec_coordination() == CoordinationState::ConnectedToHost
                    ==> final(self).spec_simulation() == SimulationState::Running)
            },
    {
        let mut conn_opt: Option<ConnectionToHost> = None;
        core::mem::swap(&mut conn_opt, &mut self.connection_to_host);
        let mut conn = match conn_opt {
            Some(c) => c,
            None => {
                return ;
            },
        };
        // Hello ping.
        if matches!(self.join_state, ClientJoinState::NeedsSendInitialPing) {
            sys_initial_connect(&mut self.network_queue, &conn);
            self.join_state = ClientJoinState::WaitingForWorld;
        }
        // Answer pings; learn the assigned identity.
        sys_client_pong_responder(&mut self.network_queue, &conn);
        let configs = self.network_queue.take_inbound(
            &conn.channel_id,
            MessageKind::SetClientConfig,
        );
        let mut assigned: Option<PlayerId> = None;
        let mut incoming = configs;
        while incoming.len() > 0
            invariant
                true,
            decreases incoming@.len(),
        {
            let m = incoming.remove(0);
            match m {
                NetworkMessage::SetClientConfig { player_id } => {
                    assigned = Some(player_id);
                },
                _ => {},
            }
        }
        match assigned {
            Some(player_id) => {
                self.local_player = ResLocalPlayerId(Some(player_id));
            },
            None => {},
        }
        // World arrival.
        proof {
            let is_world = |m: NetworkMessage| crate::network_queue::is_kind(
                m,
                MessageKind::World,
            );
            let not_ping = |m: NetworkMessage| !crate::network_queue::is_kind(
                m,
                MessageKind::Ping,
            );
            let not_scc = |m: NetworkMessage| !crate::network_queue::is_kind(
                m,
                MessageKind::SetClientConfig,
            );
            assert forall|m: NetworkMessage| #[trigger] is_world(m) implies not_ping(m) by {}
            assert forall|m: NetworkMessage| #[trigger] is_world(m) implies not_scc(m) by {}
            let inb0 = old(self).spec_network_queue().inbound_of(conn.channel_id);
            crate::network_queue::lemma_filter_subsumed(inb0, not_ping, is_world);
            crate::network_queue::lemma_filter_subsumed(
                inb0.filter(not_ping),
                not_scc,
                is_world,
            );
            assert(self.network_queue.inbound_of(conn.channel_id).filter(is_world)
                == inb0.filter(is_world));
        }
        if matches!(self.join_state, ClientJoinState::WaitingForWorld) {
            match sys_receive_world_load(&mut self.network_queue, &conn) {
                Some(load) => {
                    match World::load_world(&load.scene) {
                        Some(w) => {
                            if load.last_simulated_tick <= usize::MAX - 2 * SLOT_COUNT
                                && self.clients.len() == 0 {
                                self.world = w;
                                self.tick_queue.set_last_simulated_tick(
                                    load.last_simulated_tick,
                                );
                                self.join_state = ClientJoinState::Connected;
                                self.simulation = SimulationState::Running;
                            }
                        },
                        None => {
                            // Snapshot error: fatal for this join.
                            self.coordination = CoordinationState::Disconnected;
                            self.simulation = SimulationState::Paused;
                            self.connection_to_host = Some(conn);
                            return ;
                        },
                    }
                },
                None => {},
            }
        }
        // Forward local actions; apply or buffer finalizations.
        if matches!(self.join_state, ClientJoinState::NonClient) {
            self.connection_to_host = Some(conn);
            return ;
        }
        let r = sys_client_scheduler(
            &mut self.action_queue,
            &mut self.network_queue,
            &mut self.tick_queue,
            &mut conn,
            self.join_state,
        );
        match r {
            Ok(()) => {},
            Err(_) => {
                // Capacity or protocol failure on the client is fatal
                // for the session.
                self.coordination = CoordinationState::Disconnected;
                self.simulation = SimulationState::Paused;
            },
        }
        self.connection_to_host = Some(conn);
    }

    /// Simulates every finalized tick that is ready (and already sent
    /// to every connected client): applies each tick's actions to the
    /// world in order, records `(tick, checksum)` in the hash log, and
    /// finally recycles the slots no peer needs any more.
    fn run_simulation(&mut self)
        requires
            old(self).wf(),
        ensures
            final(self).wf(),
            old(self).spec_simulation() != SimulationState::Running ==> *final(self) == *old(self),
            final(self).spec_network_queue() == old(self).spec_network_queue(),
            final(self).spec_action_queue() == old(self).spec_action_queue(),
            final(self).spec_clients() == old(self).spec_clients(),
            final(self).spec_coordination() == old(self).spec_coordination(),
            final(self).spec_simulation() == old(self).spec_simulation(),
            final(self).spec_join_state() == old(self).spec_join_state(),
            final(self).spec_connection_to_host() == old(self).spec_connection_to_host(),
            old(self).spec_simulation() == SimulationState::Running ==> {
                let q0 = old(self).spec_tick_queue();
                let w0 = old(self).spec_world_entities();
                let log0 = old(self).spec_hash_log();
                let hz = sim_horizon_of(old(self).spec_clients(), q0);
                let stop = sim_stop(q0, hz);
                let n = (stop - q0.next_tick()) as nat;
                &&& final(self).spec_tick_queue().next_tick() == stop
                &&& final(self).spec_tick_queue().last_finalized() == q0.last_finalized()
                &&& forall|u: int|
                    u >= stop - 1 ==> #[trigger] final(self).spec_tick_queue().tick_actions(u)
                        == q0.tick_actions(u)
                &&& final(self).spec_world_entities() == world_after(w0, q0, q0.next_tick(), n)
                &&& final(self).spec_hash_log().len() == log0.len() + n
                &&& forall|j: int|
                    0 <= j < log0.len() ==> #[trigger] final(self).spec_hash_log()[j] == log0[j]
                &&& forall|j: int|
                    log0.len() <= j < log0.len() + n ==> (#[trigger] final(self).spec_hash_log()[
                    j]).0 == q0.next_tick() + (j - log0.len()) && final(self).spec_hash_log()[
                    j].1 == crate::world::world_hash(
                        world_after(w0, q0, q0.next_tick(), (j - log0.len() + 1) as nat),
                    )
                &&& (n > 0 ==> final(self).spec_last_tick_hash() == crate::world::world_hash(
                    final(self).spec_world_entities(),
                ))
                &&& (n == 0 ==> final(self).spec_last_tick_hash() == old(self).spec_last_tick_hash())
                &&& q0.first_populated() <= final(self).spec_tick_queue().first_populated()
                    <= stop - 1
                &&& (old(self).spec_clients().len() == 0 && stop - 1 + 2 * SLOT_COUNT
                    <= usize::MAX ==> final(self).spec_tick_queue().first_populated() == stop - 1)
            },
    {
        if !matches!(self.simulation, SimulationState::Running) {
            return ;
        }
        proof {
            crate::tick_queue::lemma_wf_bounds(self.tick_queue);
        }
        let horizon = self.sim_horizon();
        let ghost q0 = self.tick_queue;
        let ghost w0 = self.world.entities@;
        let ghost log0 = self.hash_log@;
        let ghost lth0 = self.last_tick_hash;
        let ghost pinned_clients = self.clients@;
        let ghost nq0 = self.network_queue;
        let ghost aq0 = self.action_queue;
        let ghost ch0 = self.connection_to_host;
        let ghost nc0 = self.next_channel;
        let ghost lp0 = self.local_player;
        let ghost pid0 = self.player_ids;
        let ghost co0 = self.coordination;
        let ghost si0 = self.simulation;
        let ghost js0 = self.join_state;
        while self.tick_queue.get_next_tick_to_simulate() <= horizon
            && self.tick_queue.get_next_tick_to_simulate()
            < self.tick_queue.get_first_populated() + SLOT_COUNT
            invariant
                self.tick_queue.wf(),
                self.tick_queue.gapless(),
                self.world.wf(),
                self.clients@ == pinned_clients,
                self.network_queue == nq0,
                self.action_queue == aq0,
                self.connection_to_host == ch0,
                self.next_channel == nc0,
                self.local_player == lp0,
                self.player_ids == pid0,
                self.coordination == co0,
                self.simulation == si0,
                self.join_state == js0,
                nq0.wf(),
                actions_wf(aq0.view_queue()),
                match ch0 {
                    Some(c) => c.wf() && c.channel_id.0 < usize::MAX,
                    None => true,
                },
                forall|i: int|
                    0 <= i < pinned_clients.len() ==> (
                    #[trigger] pinned_clients[i]).channel_id.0 <= nc0,
                distinct_channels(pinned_clients),
                channels_in_range(pinned_clients),
                q0.wf(),
                horizon == sim_horizon_of(pinned_clients, q0),
                q0.next_tick() - 1 <= horizon <= q0.last_finalized(),
                forall|i: int|
                    0 <= i < pinned_clients.len() && (#[trigger] pinned_clients[i]).state()
                        == ClientConnectionState::Connected ==> horizon
                        <= pinned_clients[i].last_finalized_tick
                        && pinned_clients[i].last_finalized_tick <= q0.last_finalized(),
                self.tick_queue.last_finalized() == q0.last_finalized(),
                self.tick_queue.first_populated() == q0.first_populated(),
                q0.next_tick() <= self.tick_queue.next_tick() <= horizon + 1,
                forall|u: int|
                    #[trigger] self.tick_queue.tick_actions(u) == q0.tick_actions(u),
                self.world.entities@ == world_after(
                    w0,
                    q0,
                    q0.next_tick(),
                    (self.tick_queue.next_tick() - q0.next_tick()) as nat,
                ),
                self.hash_log@.len() == log0.len() + (self.tick_queue.next_tick()
                    - q0.next_tick()),
                forall|j: int| 0 <= j < log0.len() ==> #[trigger] self.hash_log@[j] == log0[j],
                forall|j: int|
                    log0.len() <= j < self.hash_log@.len() ==> (#[trigger] self.hash_log@[j]).0
                        == q0.next_tick() + (j - log0.len()) && self.hash_log@[j].1
                        == crate::world::world_hash(
                        world_after(w0, q0, q0.next_tick(), (j - log0.len() + 1) as nat),
                    ),
                self.tick_queue.next_tick() > q0.next_tick() ==> self.last_tick_hash
                    == crate::world::world_hash(self.world.entities@),
                self.tick_queue.next_tick() == q0.next_tick() ==> self.last_tick_hash == lth0,
            decreases horizon + 1 - self.tick_queue.next_tick(),
        {
            let tick = self.tick_queue.get_next_tick_to_simulate();
            let ghost w_pre = self.world.entities@;
            let actions = crate::actions::clone_actions(self.tick_queue.current_tick_actions());
            self.world.step(&actions);
            proof {
                let k = (tick - q0.next_tick()) as nat;
                assert(self.world.entities@ == world_after(w0, q0, q0.next_tick(), (k + 1) as nat));
            }
            let h = self.world.hash_world();
            let r = self.tick_queue.advance(h);
            proof {
                assert(r is Ok);
            }
            self.last_tick_hash = h;
            self.hash_log.push((tick, h));
        }
        proof {
            assert forall|i: int|
                0 <= i < self.clients@.len() && (#[trigger] self.clients@[i]).state()
                    == ClientConnectionState::Connected implies {
                &&& self.tick_queue.next_tick() - 1 <= self.clients@[i].last_finalized_tick
                &&& self.clients@[i].last_finalized_tick <= self.tick_queue.last_finalized()
            } by {
                assert(pinned_clients[i].state() == ClientConnectionState::Connected);
                assert(horizon <= pinned_clients[i].last_finalized_tick);
            }
            assert(self.tick_queue.next_tick() == sim_stop(q0, horizon as int));
        }
        // Recycle everything simulated, so the ring keeps headroom.
        proof {
            crate::tick_queue::lemma_wf_bounds(self.tick_queue);
        }
        let next = self.tick_queue.get_next_tick_to_simulate();
        if next - 1 <= usize::MAX - 2 * SLOT_COUNT {
            let keep = self.min_client_window();
            if keep < next {
                self.tick_queue.reset_through(keep);
            }
        }
    }

    /// The largest tick this frame may simulate through: the
    /// finalization horizon, held back to what every connected client
    /// has already been sent.
    fn sim_horizon(&self) -> (r: usize)
        requires
            self.wf(),
        ensures
            r == sim_horizon_of(self.spec_clients(), self.spec_tick_queue()),
            self.tick_queue.next_tick() - 1 <= r <= self.tick_queue.last_finalized(),
            forall|i: int|
                0 <= i < self.clients@.len() && (#[trigger] self.clients@[i]).state()
                    == ClientConnectionState::Connected ==> r
                    <= self.clients@[i].last_finalized_tick,
    {
        proof {
            crate::tick_queue::lemma_wf_bounds(self.tick_queue);
            assert(self.clients@.take(0) =~= Seq::<ClientConnection>::empty());
        }
        let mut horizon: usize = self.tick_queue.get_last_finalized_tick();
        let last_sim: usize = self.tick_queue.get_last_simulated_tick();
        let mut i: usize = 0;
        while i < self.clients.len()
            invariant
                self.wf(),
                last_sim == self.tick_queue.next_tick() - 1,
                last_sim <= horizon <= self.tick_queue.last_finalized(),
                0 <= i <= self.clients@.len(),
                horizon == sim_horizon_of(self.clients@.take(i as int), self.tick_queue),
                forall|k: int|
                    0 <= k < i && (#[trigger] self.clients@[k]).state()
                        == ClientConnectionState::Connected ==> horizon
                        <= self.clients@[k].last_finalized_tick,
            decreases self.clients@.len() - i,
        {
            proof {
                assert(self.clients@.take(i + 1).drop_last() =~= self.clients@.take(i as int));
                assert(self.clients@.take(i + 1).last() == self.clients@[i as int]);
            }
            let c = &self.clients[i];
            if c.is_connected() && c.last_finalized_tick < horizon {
                horizon = c.last_finalized_tick;
                proof {
                    assert(self.tick_queue.next_tick() - 1 <= horizon);
                }
            }
            i = i + 1;
        }
        proof {
            assert(self.clients@.take(self.clients@.len() as int) =~= self.clients@);
        }
        horizon
    }

    /// The oldest tick some peer still needs, floored at what the ring
    /// still holds.
    fn min_client_window(&self) -> (r: usize)
        requires
            self.wf(),
        ensures
            self.tick_queue.first_populated() <= r <= self.tick_queue.next_tick() - 1,
            self.clients@.len() == 0 ==> r == self.tick_queue.next_tick() - 1,
    {
        proof {
            crate::tick_queue::lemma_wf_bounds(self.tick_queue);
        }
        let mut keep: usize = self.tick_queue.get_last_simulated_tick();
        let fp = self.tick_queue.get_first_populated();
        let mut i: usize = 0;
        while i < self.clients.len()
            invariant
                self.wf(),
                fp == self.tick_queue.first_populated(),
                self.tick_queue.first_populated() <= keep <= self.tick_queue.next_tick() - 1,
                self.clients@.len() == 0 ==> keep == self.tick_queue.next_tick() - 1,
            decreases self.clients@.len() - i,
        {
            let c = &self.clients[i];
            if c.is_connected() && c.last_finalized_tick < keep {
                if c.last_finalized_tick >= fp {
                    keep = c.last_finalized_tick;
                } else {
                    keep = fp;
                }
            }
            i = i + 1;
        }
        keep
    }
}

/// Severs every client record on the given channel; every other
/// record is untouched.
fn disconnect_channel(clients: &mut Vec<ClientConnection>, channel: ChannelId)
    ensures
        final(clients)@.len() == old(clients)@.len(),
        forall|k: int|
            0 <= k < old(clients)@.len() ==> {
                let oc = #[trigger] old(clients)@[k];
                let nc = final(clients)@[k];
                &&& (oc.channel_id.0 == channel.0 ==> {
                    &&& nc.state() == ClientConnectionState::Disconnected
                    &&& nc.channel_id == oc.channel_id
                    &&& nc.player_id == oc.player_id
                    &&& nc.last_finalized_tick == oc.last_finalized_tick
                })
                &&& (oc.channel_id.0 != channel.0 ==> nc == oc)
            },
{
    let ghost clients0 = old(clients)@;
    let mut i: usize = 0;
    while i < clients.len()
        invariant
            clients@.len() == clients0.len(),
            forall|k: int|
                0 <= k < clients0.len() ==> {
                    let oc = #[trigger] clients0[k];
                    let nc = clients@[k];
                    &&& (k < i && oc.channel_id.0 == channel.0 ==> {
                        &&& nc.state() == ClientConnectionState::Disconnected
                        &&& nc.channel_id == oc.channel_id
                        &&& nc.player_id == oc.player_id
                        &&& nc.last_finalized_tick == oc.last_finalized_tick
                    })
                    &&& (k < i && oc.channel_id.0 != channel.0 ==> nc == oc)
                    &&& (k >= i ==> nc == oc)
                },
        decreases clients@.len() - i,
    {
        if clients[i].channel_id.0 == channel.0 {
            let mut me = ClientConnection::new(channel, clients[i].player_id);
            vstd::pervasive::VecAdditionalExecFns::set_and_swap(clients, i, &mut me);
            me.disconnect();
            vstd::pervasive::VecAdditionalExecFns::set(clients, i, me);
        }
        i = i + 1;
    }
}

} // verus!
