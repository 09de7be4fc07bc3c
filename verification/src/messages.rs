//! The messages that host and clients exchange, and the identifiers of
//! the channels that carry them.

use crate::actions::{actions_wf, Action, PlayerId};
use vstd::prelude::*;

verus! {

/// Identifies one peer's message channel inside the local process.
#[derive(Clone, Copy, PartialEq, Eq, Structural, Debug)]
pub struct ChannelId(pub usize);

/// One frame of the lockstep protocol, sent on a reliable ordered
/// channel.
#[derive(Debug)]
pub enum NetworkMessage {
    /// Requests a `Pong`; also the client's hello during the join
    /// handshake.
    Ping(usize),
    /// Answers a `Ping`.
    Pong(usize),
    /// Client asks the host for the world (kept for protocol
    /// completeness; the join handshake proper starts with `Ping`).
    RequestWorldLoad,
    /// Host hands a joining client the serialized world.
    World(WorldLoad),
    /// Host assigns the client its player identity.
    SetClientConfig { player_id: PlayerId },
    /// Host announces the agreed action list of one tick.
    FinalizedTick { tick: usize, actions: Vec<Action> },
    /// Client asks the host to schedule these actions at a future tick.
    ScheduleActions { actions: Vec<Action> },
}

/// The world snapshot a joining client loads.
#[derive(Debug)]
pub struct WorldLoad {
    /// Serialized scene, opaque to the protocol.
    pub scene: Vec<u8>,
    /// The last tick already simulated when the scene was serialized.
    pub last_simulated_tick: usize,
}

/// The variant of a message, used to drain inbound queues selectively.
#[derive(Clone, Copy, PartialEq, Eq, Structural, Debug)]
pub enum MessageKind {
    Ping,
    Pong,
    RequestWorldLoad,
    World,
    SetClientConfig,
    FinalizedTick,
    ScheduleActions,
}

/// The mathematical value of a message: the same variants with carried
/// vectors abstracted to sequences.  Contracts speak of messages through
/// this view.
pub enum MessageView {
    Ping(int),
    Pong(int),
    RequestWorldLoad,
    World { scene: Seq<u8>, last_simulated_tick: int },
    SetClientConfig { player_id: PlayerId },
    FinalizedTick { tick: int, actions: Seq<Action> },
    ScheduleActions { actions: Seq<Action> },
}

impl View for NetworkMessage {
    type V = MessageView;

    open spec fn view(&self) -> MessageView {
        match *self {
            NetworkMessage::Ping(n) => MessageView::Ping(n as int),
            NetworkMessage::Pong(n) => MessageView::Pong(n as int),
            NetworkMessage::RequestWorldLoad => MessageView::RequestWorldLoad,
            NetworkMessage::World(wl) => MessageView::World {
                scene: wl.scene@,
                last_simulated_tick: wl.last_simulated_tick as int,
            },
            NetworkMessage::SetClientConfig { player_id } => MessageView::SetClientConfig {
                player_id,
            },
            NetworkMessage::FinalizedTick { tick, actions } => MessageView::FinalizedTick {
                tick: tick as int,
                actions: actions@,
            },
            NetworkMessage::ScheduleActions { actions } => MessageView::ScheduleActions {
                actions: actions@,
            },
        }
    }
}

/// The views of a message sequence, in order.
pub open spec fn message_views(s: Seq<NetworkMessage>) -> Seq<MessageView> {
    s.map_values(|m: NetworkMessage| m@)
}

/// Views distribute over appending one message.
pub proof fn lemma_message_views_push(s: Seq<NetworkMessage>, m: NetworkMessage)
    ensures
        message_views(s.push(m)) == message_views(s).push(m@),
{
    assert forall|x: int|
        0 <= x < message_views(s.push(m)).len() implies #[trigger] message_views(s.push(m))[x]
            == message_views(s).push(m@)[x] by {
        if x < s.len() {
            assert(s.push(m)[x] == s[x]);
        } else {
            assert(s.push(m)[x] == m);
        }
    }
    assert(message_views(s.push(m)) =~= message_views(s).push(m@));
}

/// Views distribute over concatenation.
pub proof fn lemma_message_views_concat(a: Seq<NetworkMessage>, b: Seq<NetworkMessage>)
    ensures
        message_views(a + b) == message_views(a) + message_views(b),
{
    assert forall|x: int|
        0 <= x < message_views(a + b).len() implies #[trigger] message_views(a + b)[x] == (
        message_views(a) + message_views(b))[x] by {
        if x < a.len() {
            assert((a + b)[x] == a[x]);
        } else {
            assert((a + b)[x] == b[x - a.len()]);
        }
    }
    assert(message_views(a + b) =~= message_views(a) + message_views(b));
}

impl NetworkMessage {
    /// The variant of this message.
    pub open spec fn spec_kind(self) -> MessageKind {
        match self {
            NetworkMessage::Ping(..) => MessageKind::Ping,
            NetworkMessage::Pong(..) => MessageKind::Pong,
            NetworkMessage::RequestWorldLoad => MessageKind::RequestWorldLoad,
            NetworkMessage::World(..) => MessageKind::World,
            NetworkMessage::SetClientConfig { .. } => MessageKind::SetClientConfig,
            NetworkMessage::FinalizedTick { .. } => MessageKind::FinalizedTick,
            NetworkMessage::ScheduleActions { .. } => MessageKind::ScheduleActions,
        }
    }

    /// The variant of this message.
    pub fn kind(&self) -> (r: MessageKind)
        ensures
            r == self.spec_kind(),
    {
        match self {
            NetworkMessage::Ping(..) => MessageKind::Ping,
            NetworkMessage::Pong(..) => MessageKind::Pong,
            NetworkMessage::RequestWorldLoad => MessageKind::RequestWorldLoad,
            NetworkMessage::World(..) => MessageKind::World,
            NetworkMessage::SetClientConfig { .. } => MessageKind::SetClientConfig,
            NetworkMessage::FinalizedTick { .. } => MessageKind::FinalizedTick,
            NetworkMessage::ScheduleActions { .. } => MessageKind::ScheduleActions,
        }
    }

    /// Direction sets in carried actions use only the four direction
    /// bits, and carried vectors fit the machine's index range (true
    /// of every vector a program can hold, but stated so that the wire
    /// encoding is provably lossless).
    pub open spec fn wf(self) -> bool {
        match self {
            NetworkMessage::FinalizedTick { actions, .. } => actions_wf(actions@)
                && actions@.len() <= usize::MAX,
            NetworkMessage::ScheduleActions { actions } => actions_wf(actions@) && actions@.len()
                <= usize::MAX,
            NetworkMessage::World(wl) => wl.scene@.len() <= usize::MAX,
            _ => true,
        }
    }
}

/// Every message in the sequence is well formed.
pub open spec fn messages_wf(s: Seq<NetworkMessage>) -> bool {
    forall|i: int| 0 <= i < s.len() ==> (#[trigger] s[i]).wf()
}

impl PartialEq for NetworkMessage {
    /// Structural equality, so that tests can compare drained messages.
    fn eq(&self, other: &NetworkMessage) -> (r: bool) {
        match (self, other) {
            (NetworkMessage::Ping(a), NetworkMessage::Ping(b)) => a == b,
            (NetworkMessage::Pong(a), NetworkMessage::Pong(b)) => a == b,
            (NetworkMessage::RequestWorldLoad, NetworkMessage::RequestWorldLoad) => true,
            (NetworkMessage::World(a), NetworkMessage::World(b)) => {
                slices_eq_u8(a.scene.as_slice(), b.scene.as_slice())
                    && a.last_simulated_tick == b.last_simulated_tick
            },
            (
                NetworkMessage::SetClientConfig { player_id: a },
                NetworkMessage::SetClientConfig { player_id: b },
            ) => a == b,
            (
                NetworkMessage::FinalizedTick { tick: t1, actions: a1 },
                NetworkMessage::FinalizedTick { tick: t2, actions: a2 },
            ) => t1 == t2 && actions_eq(a1, a2),
            (
                NetworkMessage::ScheduleActions { actions: a1 },
                NetworkMessage::ScheduleActions { actions: a2 },
            ) => actions_eq(a1, a2),
            _ => false,
        }
    }
}

impl vstd::std_specs::cmp::PartialEqSpecImpl for NetworkMessage {
    open spec fn obeys_eq_spec() -> bool {
        true
    }

    open spec fn eq_spec(&self, other: &NetworkMessage) -> bool {
        message_eq(*self, *other)
    }
}

/// What `==` on messages means: equal variants with equal payloads,
/// with carried vectors compared element by element.
pub open spec fn message_eq(a: NetworkMessage, b: NetworkMessage) -> bool {
    match (a, b) {
        (NetworkMessage::Ping(x), NetworkMessage::Ping(y)) => x == y,
        (NetworkMessage::Pong(x), NetworkMessage::Pong(y)) => x == y,
        (NetworkMessage::RequestWorldLoad, NetworkMessage::RequestWorldLoad) => true,
        (NetworkMessage::World(x), NetworkMessage::World(y)) => x.scene@ == y.scene@
            && x.last_simulated_tick == y.last_simulated_tick,
        (
            NetworkMessage::SetClientConfig { player_id: x },
            NetworkMessage::SetClientConfig { player_id: y },
        ) => x == y,
        (
            NetworkMessage::FinalizedTick { tick: t1, actions: a1 },
            NetworkMessage::FinalizedTick { tick: t2, actions: a2 },
        ) => t1 == t2 && a1@ == a2@,
        (
            NetworkMessage::ScheduleActions { actions: a1 },
            NetworkMessage::ScheduleActions { actions: a2 },
        ) => a1@ == a2@,
        _ => false,
    }
}

/// Element-wise equality of action vectors.
fn actions_eq(a: &Vec<Action>, b: &Vec<Action>) -> (r: bool)
    ensures
        r == (a@ == b@),
{
    if a.len() != b.len() {
        proof {
            assert(a@ != b@);
        }
        return false;
    }
    let mut i: usize = 0;
    while i < a.len()
        invariant
            0 <= i <= a.len(),
            a.len() == b.len(),
            forall|j: int| 0 <= j < i ==> a@[j] == b@[j],
        decreases a.len() - i,
    {
        if a[i] != b[i] {
            proof {
                assert(a@[i as int] != b@[i as int]);
            }
            return false;
        }
        i = i + 1;
    }
    proof {
        assert(a@ =~= b@);
    }
    true
}

/// Element-wise equality of byte slices.
fn slices_eq_u8(a: &[u8], b: &[u8]) -> (r: bool)
    ensures
        r == (a@ == b@),
{
    if a.len() != b.len() {
        proof {
            assert(a@ != b@);
        }
        return false;
    }
    let mut i: usize = 0;
    while i < a.len()
        invariant
            0 <= i <= a.len(),
            a@.len() == b@.len(),
            forall|j: int| 0 <= j < i ==> a@[j] == b@[j],
        decreases a.len() - i,
    {
        if a[i] != b[i] {
            proof {
                assert(a@[i as int] != b@[i as int]);
            }
            return false;
        }
        i = i + 1;
    }
    proof {
        assert(a@ =~= b@);
    }
    true
}

} // verus!
