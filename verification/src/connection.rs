//! Per-peer connection records.
//!
//! The host keeps one [`ClientConnection`] per client and walks it
//! through the join handshake; a client keeps a single link back to the
//! host (see the client scheduler module).  A connection only ever
//! moves forward through its states.

use crate::actions::PlayerId;
use crate::messages::ChannelId;
use vstd::prelude::*;

verus! {

/// The host-side lifecycle of one client.
#[derive(Clone, Copy, PartialEq, Eq, Structural, Debug)]
pub enum ClientConnectionState {
    /// The peer is gone; the record is inert.
    Disconnected,
    /// The channel exists but the client has not said hello yet.
    WaitingForHello,
    /// The client pinged; it must be sent the world next.
    NeedsWorldSend,
    /// In lockstep: the client receives every finalized tick.
    Connected,
}

/// The transport-level lifecycle of a peer link, as the embedding
/// layer reports it.
#[derive(Clone, Copy, PartialEq, Eq, Structural, Debug)]
pub enum PeerConnectionState {
    Idle,
    Connecting,
    Connected,
    Ended,
}

/// The host's record of one client.
pub struct ClientConnection {
    /// The channel that reaches this client.
    pub channel_id: ChannelId,
    /// The largest tick whose finalization has been sent to this
    /// client.
    pub last_finalized_tick: usize,
    /// The join-handshake state; advanced only by the methods below.
    pub connection_state: ClientConnectionState,
    /// The identity the host allocated for this client's player.
    pub player_id: PlayerId,
}

impl ClientConnection {
    /// The join-handshake state.
    pub open spec fn state(self) -> ClientConnectionState {
        self.connection_state
    }

    /// A fresh record: the client still owes its hello ping.
    pub fn new(channel_id: ChannelId, player_id: PlayerId) -> (r: ClientConnection)
        ensures
            r.channel_id == channel_id,
            r.player_id == player_id,
            r.last_finalized_tick == 0,
            r.state() == ClientConnectionState::WaitingForHello,
    {
        ClientConnection {
            channel_id,
            last_finalized_tick: 0,
            connection_state: ClientConnectionState::WaitingForHello,
            player_id,
        }
    }

    /// Whether the client is in lockstep.
    pub fn is_connected(&self) -> (r: bool)
        ensures
            r == (self.state() == ClientConnectionState::Connected),
    {
        matches!(self.connection_state, ClientConnectionState::Connected)
    }

    /// Records an incoming ping: the first one is the client's hello
    /// and moves it toward the world send.
    pub fn on_ping(&mut self, _ping_id: usize)
        ensures
            final(self).state() == if old(self).state() == ClientConnectionState::WaitingForHello {
                ClientConnectionState::NeedsWorldSend
            } else {
                old(self).state()
            },
            final(self).channel_id == old(self).channel_id,
            final(self).player_id == old(self).player_id,
            final(self).last_finalized_tick == old(self).last_finalized_tick,
    {
        if matches!(self.connection_state, ClientConnectionState::WaitingForHello) {
            self.connection_state = ClientConnectionState::NeedsWorldSend;
        }
    }

    /// Whether the world must be serialized and sent to this client.
    pub fn needs_world_send(&self) -> (r: bool)
        ensures
            r == (self.state() == ClientConnectionState::NeedsWorldSend),
    {
        matches!(self.connection_state, ClientConnectionState::NeedsWorldSend)
    }

    /// Records that the world as of `tick` was sent: the client is now
    /// in lockstep and owes finalizations only above `tick`.
    pub fn on_world_send(&mut self, tick: usize)
        ensures
            final(self).state() == ClientConnectionState::Connected,
            final(self).last_finalized_tick == tick,
            final(self).channel_id == old(self).channel_id,
            final(self).player_id == old(self).player_id,
    {
        self.connection_state = ClientConnectionState::Connected;
        self.last_finalized_tick = tick;
    }

    /// Severs the connection; the record becomes inert.
    pub fn disconnect(&mut self)
        ensures
            final(self).state() == ClientConnectionState::Disconnected,
            final(self).channel_id == old(self).channel_id,
            final(self).player_id == old(self).player_id,
            final(self).last_finalized_tick == old(self).last_finalized_tick,
    {
        self.connection_state = ClientConnectionState::Disconnected;
    }
}

} // verus!
