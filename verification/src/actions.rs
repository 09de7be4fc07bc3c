//! Player intents and their per-player wrapping.
//!
//! An [`Action`] is the unit that the lockstep protocol agrees on: every
//! participant applies the same ordered list of actions at every tick.
//! Local input first becomes a [`PlayerAction`], is tagged with the local
//! [`PlayerId`], and is then queued in a [`ResActionQueue`] until a
//! scheduler attaches it to a tick.

use crate::fixed_point::FixedPoint;
use vstd::prelude::*;

verus! {

/// A set of the four cardinal directions, kept as four bits.
///
/// The set may be empty or hold any subset; only the low four bits are
/// ever used (`wf`).
#[derive(Clone, Copy, PartialEq, Eq, Structural, Debug)]
pub struct Direction {
    pub bits: u8,
}

impl Direction {
    /// Only the four direction bits may be set.
    pub open spec fn wf(self) -> bool {
        self.bits < 16
    }

    /// The empty direction set.
    pub fn none() -> (r: Direction)
        ensures
            r.bits == 0,
            r.wf(),
    {
        Direction { bits: 0 }
    }

    /// The set holding only `Up`.
    pub fn up() -> (r: Direction)
        ensures
            r.bits == 1,
            r.wf(),
    {
        Direction { bits: 1 }
    }

    /// The set holding only `Down`.
    pub fn down() -> (r: Direction)
        ensures
            r.bits == 2,
            r.wf(),
    {
        Direction { bits: 2 }
    }

    /// The set holding only `Left`.
    pub fn left() -> (r: Direction)
        ensures
            r.bits == 4,
            r.wf(),
    {
        Direction { bits: 4 }
    }

    /// The set holding only `Right`.
    pub fn right() -> (r: Direction)
        ensures
            r.bits == 8,
            r.wf(),
    {
        Direction { bits: 8 }
    }

    /// Set union.
    pub fn or(self, other: Direction) -> (r: Direction)
        ensures
            r.bits == self.bits | other.bits,
            self.wf() && other.wf() ==> r.wf(),
    {
        proof {
            let b = self.bits;
            let o = other.bits;
            assert(b < 16 && o < 16 ==> (b | o) < 16) by (bit_vector);
        }
        Direction { bits: self.bits | other.bits }
    }

    /// Set intersection.
    pub fn and(self, other: Direction) -> (r: Direction)
        ensures
            r.bits == self.bits & other.bits,
            self.wf() ==> r.wf(),
    {
        proof {
            let b = self.bits;
            let o = other.bits;
            assert(b < 16 ==> (b & o) < 16) by (bit_vector);
        }
        Direction { bits: self.bits & other.bits }
    }

    /// Set complement, within the four direction bits.
    pub fn not(self) -> (r: Direction)
        ensures
            r.bits == !self.bits & 15,
            r.wf(),
    {
        proof {
            let b = self.bits;
            assert((!b & 15) < 16) by (bit_vector);
        }
        Direction { bits: !self.bits & 15 }
    }

    /// Whether every direction in `other` is also in `self`.
    pub fn contains(self, other: Direction) -> (r: bool)
        ensures
            r == (self.bits & other.bits == other.bits),
    {
        self.bits & other.bits == other.bits
    }
}

/// A dense participant identifier, allocated by the host.
#[derive(Clone, Copy, PartialEq, Eq, Structural, Debug)]
pub struct PlayerId(pub usize);

/// Allocates player identifiers, monotonically from zero.
pub struct ResPlayerIdGenerator {
    next_id: usize,
}

impl ResPlayerIdGenerator {
    /// How many identifiers have been handed out.
    pub closed spec fn spec_next_id(self) -> int {
        self.next_id as int
    }

    /// A fresh generator; the first identifier handed out is 0.
    pub fn new() -> (r: ResPlayerIdGenerator)
        ensures
            r.spec_next_id() == 0,
    {
        ResPlayerIdGenerator { next_id: 0 }
    }

    /// Hands out the next identifier.
    pub fn get_next_id(&mut self) -> (r: PlayerId)
        requires
            old(self).spec_next_id() < usize::MAX,
        ensures
            r.0 == old(self).spec_next_id(),
            final(self).spec_next_id() == old(self).spec_next_id() + 1,
    {
        let id: usize = self.next_id;
        self.next_id = self.next_id + 1;
        PlayerId(id)
    }
}

/// The identity under which locally produced actions are tagged, once
/// the host has assigned one.
#[derive(Clone, Copy, PartialEq, Eq, Structural, Debug)]
pub struct ResLocalPlayerId(pub Option<PlayerId>);

/// An outside stimulus that may impact the simulation.
#[derive(Clone, Copy, PartialEq, Eq, Structural, Debug)]
pub enum Action {
    /// An action taken by a specific player.
    PlayerAction { action: PlayerAction, player_id: PlayerId },
    /// The spawning of a player, originated by the host.
    SpawnPlayer { player_id: PlayerId },
}

/// A typed player intent, before it is tagged with its player.
#[derive(Clone, Copy, PartialEq, Eq, Structural, Debug)]
pub enum PlayerAction {
    /// Movement in some set of cardinal directions begins.
    StartMoving { dir: Direction },
    /// Movement in some set of cardinal directions ends.
    StopMoving { dir: Direction },
    /// A jump is initiated.
    Jump,
    /// The cursor has moved.
    Cursor { x: FixedPoint, y: FixedPoint },
    /// A weapon or ability is fired.
    Fire,
}

impl PlayerAction {
    /// Direction sets inside the intent use only the four direction bits.
    pub open spec fn wf(self) -> bool {
        match self {
            PlayerAction::StartMoving { dir } => dir.wf(),
            PlayerAction::StopMoving { dir } => dir.wf(),
            _ => true,
        }
    }

    /// Wraps the intent as an [`Action`] of the given player.
    pub fn for_player(self, player_id: PlayerId) -> (r: Action)
        ensures
            r == (Action::PlayerAction { action: self, player_id }),
    {
        Action::PlayerAction { action: self, player_id }
    }
}

impl Action {
    /// Direction sets inside the action use only the four direction bits.
    pub open spec fn wf(self) -> bool {
        match self {
            Action::PlayerAction { action, .. } => action.wf(),
            Action::SpawnPlayer { .. } => true,
        }
    }
}

/// Every action in the sequence is well formed.
pub open spec fn actions_wf(s: Seq<Action>) -> bool {
    forall|i: int| 0 <= i < s.len() ==> (#[trigger] s[i]).wf()
}

/// A copy of an action vector (actions are plain values).
pub fn clone_actions(v: &Vec<Action>) -> (r: Vec<Action>)
    ensures
        r@ == v@,
        v@.len() <= usize::MAX,
{
    let mut out: Vec<Action> = Vec::new();
    let mut i: usize = 0;
    while i < v.len()
        invariant
            0 <= i <= v.len(),
            out@ == v@.take(i as int),
        decreases v.len() - i,
    {
        out.push(v[i]);
        proof {
            assert(out@ =~= v@.take(i + 1));
        }
        i = i + 1;
    }
    proof {
        assert(v@.take(v@.len() as int) =~= v@);
    }
    out
}

/// The queue of locally produced actions, drained once per frame by the
/// active scheduler.
pub struct ResActionQueue {
    queue: Vec<Action>,
}

impl ResActionQueue {
    /// The actions waiting to be scheduled, oldest first.
    pub closed spec fn view_queue(self) -> Seq<Action> {
        self.queue@
    }

    /// An empty queue.
    pub fn new() -> (r: ResActionQueue)
        ensures
            r.view_queue() == Seq::<Action>::empty(),
    {
        ResActionQueue { queue: Vec::new() }
    }

    /// Appends one action.
    pub fn add_action(&mut self, action: Action)
        ensures
            final(self).view_queue() == old(self).view_queue().push(action),
    {
        self.queue.push(action);
    }

    /// Removes and returns everything queued so far, oldest first.
    pub fn take_queue(&mut self) -> (r: Vec<Action>)
        ensures
            r@ == old(self).view_queue(),
            final(self).view_queue() == Seq::<Action>::empty(),
    {
        let mut out: Vec<Action> = Vec::new();
        core::mem::swap(&mut self.queue, &mut out);
        out
    }
}

} // verus!
