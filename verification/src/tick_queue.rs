//! The bounded ring of per-tick slots at the heart of the lockstep core.
//!
//! Every tick owns one slot of a ring of [`SLOT_COUNT`] cells.  A slot is
//! `Pending` until the host fixes its action list (`Finalized`), is
//! `Simulated` once those actions have been applied and the world
//! checksummed, and is recycled (`reset`) once no peer needs it any
//! longer.  Transitions never run backwards, and
//! `last_finalized_tick` is always the largest tick up to which the
//! finalized prefix is contiguous.
//!
//! Tick 0 is considered simulated from the start; real work begins at
//! tick 1.

use crate::actions::{actions_wf, Action};
use crate::messages::NetworkMessage;
use vstd::pervasive::VecAdditionalExecFns;
use vstd::prelude::*;

verus! {

/// Number of slots in the ring.
pub const SLOT_COUNT: usize = 128;

/// The lifecycle phase of one tick slot.
#[derive(Clone, Copy, PartialEq, Eq, Structural, Debug)]
pub enum QueueSlotState {
    /// The slot's action list may still change.
    Pending,
    /// The action list is agreed and immutable; the tick may be
    /// simulated.
    Finalized,
    /// The tick has been simulated and its checksum recorded.
    Simulated,
}

/// The slot lifecycle only ever moves forward: a slot stays where it
/// is, is finalized from pending, or is simulated from finalized.
/// Every queue operation except the explicit rebase after a world
/// load ensures this of every tick.
pub open spec fn slot_state_progresses(before: QueueSlotState, after: QueueSlotState) -> bool {
    ||| after == before
    ||| (before == QueueSlotState::Pending && after == QueueSlotState::Finalized)
    ||| (before == QueueSlotState::Finalized && after == QueueSlotState::Simulated)
}

/// Why a queue operation was refused.
#[derive(Clone, Copy, PartialEq, Eq, Structural, Debug)]
pub enum TickQueueError {
    /// The tick lies beyond the ring's capacity: older slots must be
    /// reset first.
    RingOverflow,
    /// The tick lies in the immutable past.
    PastTick,
    /// The slot was already finalized.
    AlreadyFinalized,
    /// The slot is not finalized yet, so it cannot be simulated.
    NotFinalized,
}

/// One slot of the ring.
pub struct QueueSlot {
    /// Lifecycle phase.
    pub state: QueueSlotState,
    /// The ordered action list of the tick occupying this slot.
    pub actions: Vec<Action>,
    /// World checksum after simulating this tick; meaningful only when
    /// `state` is `Simulated`.
    pub checksum: u64,
}

impl QueueSlot {
    /// A fresh, empty, pending slot.
    pub fn empty() -> (r: QueueSlot)
        ensures
            r.state == QueueSlotState::Pending,
            r.actions@ == Seq::<Action>::empty(),
            r.checksum == 0,
    {
        QueueSlot { state: QueueSlotState::Pending, actions: Vec::new(), checksum: 0 }
    }

    /// Whether the slot may still change.
    pub fn is_pending(&self) -> (r: bool)
        ensures
            r == (self.state == QueueSlotState::Pending),
    {
        matches!(self.state, QueueSlotState::Pending)
    }

    /// Whether the slot's action list is agreed and immutable.
    pub fn is_finalized(&self) -> (r: bool)
        ensures
            r == (self.state == QueueSlotState::Finalized),
    {
        matches!(self.state, QueueSlotState::Finalized)
    }

    /// Whether the slot's tick has been simulated.
    pub fn is_simulated(&self) -> (r: bool)
        ensures
            r == (self.state == QueueSlotState::Simulated),
    {
        matches!(self.state, QueueSlotState::Simulated)
    }

    /// Records the simulation of this slot's tick.  Only a finalized
    /// slot may be simulated: skipping states is forbidden.
    pub fn on_simulated(&mut self, checksum: u64)
        requires
            old(self).state == QueueSlotState::Finalized,
        ensures
            final(self).state == QueueSlotState::Simulated,
            final(self).checksum == checksum,
            final(self).actions == old(self).actions,
    {
        self.state = QueueSlotState::Simulated;
        self.checksum = checksum;
    }

    /// Returns the slot to its initial pending, empty state.
    pub fn reset(&mut self)
        ensures
            final(self).state == QueueSlotState::Pending,
            final(self).actions@ == Seq::<Action>::empty(),
            final(self).checksum == 0,
    {
        self.state = QueueSlotState::Pending;
        self.actions.clear();
        self.checksum = 0;
    }
}

/// The bounded tick queue: a ring of [`SLOT_COUNT`] slots plus the three
/// counters that define the active window.
pub struct ResTickQueue {
    /// The next tick awaiting simulation.
    next_tick_to_simulate: usize,
    /// The largest tick up to which every tick is finalized or
    /// simulated.
    last_finalized_tick: usize,
    /// The oldest tick whose slot may still be referenced; slots of
    /// older ticks have been reset.
    first_populated_slot: usize,
    /// The ring cells; the slot of tick `t` is cell `t % SLOT_COUNT`.
    slots: Vec<QueueSlot>,
}

impl ResTickQueue {
    /// The ring cell that tick `t` occupies.
    pub closed spec fn cell(self, t: int) -> QueueSlot {
        self.slots@[t % (SLOT_COUNT as int)]
    }

    /// The next tick awaiting simulation.
    pub closed spec fn next_tick(self) -> int {
        self.next_tick_to_simulate as int
    }

    /// The largest tick up to which the finalized prefix is contiguous.
    pub closed spec fn last_finalized(self) -> int {
        self.last_finalized_tick as int
    }

    /// The oldest tick whose slot is still occupied.
    pub closed spec fn first_populated(self) -> int {
        self.first_populated_slot as int
    }

    /// The queue's internal invariant.
    pub closed spec fn wf(self) -> bool {
        let next = self.next_tick();
        let lft = self.last_finalized();
        let fp = self.first_populated();
        &&& self.slots@.len() == SLOT_COUNT
        &&& 1 <= next
        &&& fp <= next - 1
        &&& next - 1 <= lft
        &&& lft < fp + SLOT_COUNT
        &&& fp + 2 * SLOT_COUNT <= usize::MAX
        &&& forall|t: int|
            fp <= t < next ==> (#[trigger] self.cell(t)).state != QueueSlotState::Finalized
        &&& forall|t: int|
            next <= t <= lft ==> (#[trigger] self.cell(t)).state == QueueSlotState::Finalized
        &&& forall|t: int|
            lft < t < fp + SLOT_COUNT ==> (#[trigger] self.cell(t)).state
                != QueueSlotState::Simulated
        &&& (lft + 1 < fp + SLOT_COUNT ==> self.cell(lft + 1).state == QueueSlotState::Pending)
        &&& forall|t: int| fp <= t < fp + SLOT_COUNT ==> actions_wf((#[trigger] self.cell(t)).actions@)
    }

    /// The lifecycle state of tick `t`: ticks before the simulation
    /// point count as simulated, ticks beyond the ring as pending.
    pub closed spec fn tick_state(self, t: int) -> QueueSlotState {
        if t < self.next_tick() {
            QueueSlotState::Simulated
        } else if t < self.first_populated() + SLOT_COUNT {
            self.cell(t).state
        } else {
            QueueSlotState::Pending
        }
    }

    /// The action list currently attached to tick `t` (empty outside
    /// the ring window).
    pub closed spec fn tick_actions(self, t: int) -> Seq<Action> {
        if self.first_populated() <= t < self.first_populated() + SLOT_COUNT {
            self.cell(t).actions@
        } else {
            Seq::<Action>::empty()
        }
    }

    /// The checksum recorded for tick `t` (zero outside the ring
    /// window).
    pub closed spec fn tick_checksum(self, t: int) -> u64 {
        if self.first_populated() <= t < self.first_populated() + SLOT_COUNT {
            self.cell(t).checksum
        } else {
            0
        }
    }

    /// No tick beyond the contiguous prefix is finalized.  Holds for
    /// every queue that only ever finalizes the next unfinalized tick,
    /// as the host and every in-order client do.
    pub open spec fn gapless(self) -> bool {
        forall|t: int|
            t > self.last_finalized() ==> #[trigger] self.tick_state(t)
                != QueueSlotState::Finalized
    }

    /// A fresh queue: tick 0 already simulated, nothing finalized,
    /// every slot empty.
    pub fn new() -> (r: ResTickQueue)
        ensures
            r.wf(),
            r.gapless(),
            r.next_tick() == 1,
            r.last_finalized() == 0,
            r.first_populated() == 0,
            forall|t: int| #[trigger] r.tick_actions(t) == Seq::<Action>::empty(),
            forall|t: int|
                #[trigger] r.tick_state(t) == if t < 1 {
                    QueueSlotState::Simulated
                } else {
                    QueueSlotState::Pending
                },
    {
        let mut slots: Vec<QueueSlot> = Vec::new();
        let mut i: usize = 0;
        while i < SLOT_COUNT
            invariant
                0 <= i <= SLOT_COUNT,
                slots@.len() == i,
                forall|j: int|
                    0 <= j < i ==> {
                        &&& (#[trigger] slots@[j]).state == QueueSlotState::Pending
                        &&& slots@[j].actions@ == Seq::<Action>::empty()
                        &&& slots@[j].checksum == 0
                    },
            decreases SLOT_COUNT - i,
        {
            slots.push(QueueSlot::empty());
            i = i + 1;
        }
        let r = ResTickQueue {
            next_tick_to_simulate: 1,
            last_finalized_tick: 0,
            first_populated_slot: 0,
            slots,
        };
        proof {
            assert forall|t: int| #[trigger] r.tick_actions(t) == Seq::<Action>::empty() by {
                if 0 <= t < SLOT_COUNT {
                    lemma_mod_window(t);
                }
            }
            assert forall|t: int|
                #[trigger] r.tick_state(t) == if t < 1 {
                    QueueSlotState::Simulated
                } else {
                    QueueSlotState::Pending
                } by {
                if 1 <= t < SLOT_COUNT {
                    lemma_mod_window(t);
                }
            }
            assert forall|t: int| 0 <= t < SLOT_COUNT implies (#[trigger] r.cell(t)).state
                == QueueSlotState::Pending && actions_wf(r.cell(t).actions@) by {
                lemma_mod_window(t);
            }
        }
        r
    }

    /// The last tick that has been simulated.
    pub fn get_last_simulated_tick(&self) -> (r: usize)
        requires
            self.wf(),
        ensures
            r == self.next_tick() - 1,
    {
        self.next_tick_to_simulate - 1
    }

    /// The next tick awaiting simulation.
    pub fn get_next_tick_to_simulate(&self) -> (r: usize)
        ensures
            r == self.next_tick(),
    {
        self.next_tick_to_simulate
    }

    /// The largest tick up to which the finalized prefix is contiguous.
    pub fn get_last_finalized_tick(&self) -> (r: usize)
        ensures
            r == self.last_finalized(),
    {
        self.last_finalized_tick
    }

    /// The checksum recorded for a tick the ring still holds;
    /// meaningful once that tick has been simulated.
    pub fn get_tick_checksum(&self, tick: usize) -> (r: u64)
        requires
            self.wf(),
            self.first_populated() <= tick < self.first_populated() + SLOT_COUNT,
        ensures
            r == self.tick_checksum(tick as int),
    {
        self.slots[tick % SLOT_COUNT].checksum
    }

    /// The oldest tick whose slot is still occupied; ticks before it
    /// have been recycled.
    pub fn get_first_populated(&self) -> (r: usize)
        requires
            self.wf(),
        ensures
            r == self.first_populated(),
            r + 2 * SLOT_COUNT <= usize::MAX,
    {
        self.first_populated_slot
    }

    /// Re-bases the queue after a world snapshot was loaded: tick
    /// `tick` counts as the last simulated one, everything above is
    /// pending and empty.
    pub fn set_last_simulated_tick(&mut self, tick: usize)
        requires
            old(self).wf(),
            tick + 2 * SLOT_COUNT <= usize::MAX,
        ensures
            final(self).wf(),
            final(self).gapless(),
            final(self).next_tick() == tick + 1,
            final(self).last_finalized() == tick,
            final(self).first_populated() == tick,
            forall|t: int| #[trigger] final(self).tick_actions(t) == Seq::<Action>::empty(),
            forall|t: int|
                #[trigger] final(self).tick_state(t) == if t <= tick {
                    QueueSlotState::Simulated
                } else {
                    QueueSlotState::Pending
                },
    {
        let mut i: usize = 0;
        while i < SLOT_COUNT
            invariant
                0 <= i <= SLOT_COUNT,
                self.slots@.len() == SLOT_COUNT,
                forall|j: int|
                    0 <= j < i ==> {
                        &&& (#[trigger] self.slots@[j]).state == QueueSlotState::Pending
                        &&& self.slots@[j].actions@ == Seq::<Action>::empty()
                        &&& self.slots@[j].checksum == 0
                    },
            decreases SLOT_COUNT - i,
        {
            self.slots.set(i, QueueSlot::empty());
            i = i + 1;
        }
        self.next_tick_to_simulate = tick + 1;
        self.last_finalized_tick = tick;
        self.first_populated_slot = tick;
    }

    /// The action list of the tick about to be simulated.
    ///
    /// The simulation point must still lie inside the ring window;
    /// the driver guarantees this by resetting consumed slots every
    /// frame.
    pub fn current_tick_actions(&self) -> (r: &Vec<Action>)
        requires
            self.wf(),
            self.next_tick() < self.first_populated() + SLOT_COUNT,
        ensures
            r@ == self.tick_actions(self.next_tick()),
            actions_wf(r@),
    {
        &self.slots[self.next_tick_to_simulate % SLOT_COUNT].actions
    }

    /// The action list of the latest finalized tick.
    pub fn last_finalized_tick_actions(&self) -> (r: &Vec<Action>)
        requires
            self.wf(),
        ensures
            r@ == self.tick_actions(self.last_finalized()),
            actions_wf(r@),
    {
        &self.slots[self.last_finalized_tick % SLOT_COUNT].actions
    }

    /// Whether the tick awaiting simulation is finalized: the check
    /// the simulation driver makes before stepping.
    pub fn is_next_tick_finalized(&self) -> (r: bool)
        requires
            self.wf(),
        ensures
            r == (self.next_tick() <= self.last_finalized()),
    {
        proof {
            let next = self.next_tick();
            let fp = self.first_populated();
            if next == fp + SLOT_COUNT {
                vstd::arithmetic::div_mod::lemma_mod_multiples_vanish(
                    1,
                    fp,
                    SLOT_COUNT as int,
                );
                assert(self.cell(next) == self.cell(fp));
            }
        }
        self.slots[self.next_tick_to_simulate % SLOT_COUNT].is_finalized()
    }

    /// The first tick whose action list is still open: one past the
    /// contiguous finalized prefix.
    pub fn next_unfinalized_tick(&self) -> (r: usize)
        requires
            self.wf(),
        ensures
            r == self.last_finalized() + 1,
            self.tick_state(r as int) != QueueSlotState::Finalized,
    {
        proof {
            let lft = self.last_finalized();
            let fp = self.first_populated();
            if lft + 1 == fp + SLOT_COUNT {
                vstd::arithmetic::div_mod::lemma_mod_multiples_vanish(
                    1,
                    fp,
                    SLOT_COUNT as int,
                );
                assert(self.cell(lft + 1) == self.cell(fp));
            }
        }
        self.last_finalized_tick + 1
    }

    /// Records that the tick awaiting simulation has been simulated
    /// with the given world checksum, and moves the simulation point
    /// past it.  Fails when that tick is not finalized.
    pub fn advance(&mut self, checksum: u64) -> (r: Result<(), TickQueueError>)
        requires
            old(self).wf(),
        ensures
            final(self).wf(),
        forall|t: int|
            slot_state_progresses(
                old(self).tick_state(t),
                #[trigger] final(self).tick_state(t),
            ),
            r is Ok <==> old(self).next_tick() <= old(self).last_finalized(),
            r is Err ==> *final(self) == *old(self) && r == Err::<(), TickQueueError>(
                TickQueueError::NotFinalized,
            ),
            r is Ok ==> {
                &&& final(self).next_tick() == old(self).next_tick() + 1
                &&& final(self).last_finalized() == old(self).last_finalized()
                &&& final(self).first_populated() == old(self).first_populated()
                &&& final(self).tick_state(old(self).next_tick()) == QueueSlotState::Simulated
                &&& final(self).tick_checksum(old(self).next_tick()) == checksum
                &&& forall|u: int|
                    u != old(self).next_tick() ==> #[trigger] final(self).tick_state(u) == old(
                        self,
                    ).tick_state(u)
                &&& forall|u: int|
                    #[trigger] final(self).tick_actions(u) == old(self).tick_actions(u)
                &&& forall|u: int|
                    u != old(self).next_tick() ==> #[trigger] final(self).tick_checksum(u) == old(
                        self,
                    ).tick_checksum(u)
                &&& (old(self).gapless() ==> final(self).gapless())
            },
    {
        if self.next_tick_to_simulate > self.last_finalized_tick {
            return Err(TickQueueError::NotFinalized);
        }
        let idx: usize = self.next_tick_to_simulate % SLOT_COUNT;
        proof {
            let oldq = *old(self);
            let next = oldq.next_tick();
            assert(oldq.cell(next).state == QueueSlotState::Finalized);
            assert(idx as int == next % (SLOT_COUNT as int));
        }
        let mut slot = QueueSlot::empty();
        self.slots.set_and_swap(idx, &mut slot);
        slot.on_simulated(checksum);
        self.slots.set(idx, slot);
        self.next_tick_to_simulate = self.next_tick_to_simulate + 1;
        proof {
            let oldq = *old(self);
            let cur = *self;
            let next = oldq.next_tick();
            let fp = oldq.first_populated();
            assert(next < fp + SLOT_COUNT);
            assert forall|u: int|
                fp <= u < fp + SLOT_COUNT && u != next implies cur.cell(u) == oldq.cell(u) by {
                lemma_cell_distinct(u, next);
            }
            assert(cur.cell(next).state == QueueSlotState::Simulated);
            assert(cur.cell(next).actions == oldq.cell(next).actions);
            assert(cur.cell(next).checksum == checksum);
            assert(cur.wf());
            assert forall|u: int|
                u != next implies #[trigger] cur.tick_state(u) == oldq.tick_state(u) by {
                if fp <= u < fp + SLOT_COUNT {
                    lemma_cell_distinct(u, next);
                }
            }
            assert forall|u: int| #[trigger] cur.tick_actions(u) == oldq.tick_actions(u) by {
                if fp <= u < fp + SLOT_COUNT && u != next {
                    lemma_cell_distinct(u, next);
                }
            }
            assert forall|u: int|
                u != next implies #[trigger] cur.tick_checksum(u) == oldq.tick_checksum(u) by {
                if fp <= u < fp + SLOT_COUNT {
                    lemma_cell_distinct(u, next);
                }
            }
        }
        Ok(())
    }
    /// Checks that `tick`'s slot is still open for writing: inside the
    /// ring window, not in the past, not yet finalized.
    fn check_open(&self, tick: usize) -> (r: Result<(), TickQueueError>)
        requires
            self.wf(),
        ensures
            r is Ok <==> {
                &&& self.next_tick() <= tick
                &&& tick < self.first_populated() + SLOT_COUNT
                &&& self.tick_state(tick as int) == QueueSlotState::Pending
            },
            r is Ok ==> self.last_finalized() < tick,
            r == Err::<(), TickQueueError>(TickQueueError::RingOverflow) <==> tick
                >= self.first_populated() + SLOT_COUNT,
            r == Err::<(), TickQueueError>(TickQueueError::PastTick) <==> tick
                < self.first_populated() + SLOT_COUNT && tick < self.next_tick(),
            r == Err::<(), TickQueueError>(TickQueueError::AlreadyFinalized) <==> {
                &&& self.next_tick() <= tick
                &&& tick < self.first_populated() + SLOT_COUNT
                &&& self.tick_state(tick as int) == QueueSlotState::Finalized
            },
    {
        if tick >= self.first_populated_slot + SLOT_COUNT {
            Err(TickQueueError::RingOverflow)
        } else if tick < self.next_tick_to_simulate {
            Err(TickQueueError::PastTick)
        } else if self.slots[tick % SLOT_COUNT].is_finalized() {
            Err(TickQueueError::AlreadyFinalized)
        } else {
            Ok(())
        }
    }

    /// Appends actions to the open slot of `tick`.  The slot must have
    /// been checked to be open.
    fn cell_append_actions(&mut self, tick: usize, actions: Vec<Action>)
        requires
            old(self).wf(),
            old(self).next_tick() <= tick < old(self).first_populated() + SLOT_COUNT,
            old(self).tick_state(tick as int) == QueueSlotState::Pending,
            actions_wf(actions@),
        ensures
            final(self).wf(),
            final(self).next_tick() == old(self).next_tick(),
            final(self).last_finalized() == old(self).last_finalized(),
            final(self).first_populated() == old(self).first_populated(),
            forall|u: int| #[trigger] final(self).tick_state(u) == old(self).tick_state(u),
            final(self).tick_actions(tick as int) == old(self).tick_actions(tick as int)
                + actions@,
            forall|u: int|
                u != tick ==> #[trigger] final(self).tick_actions(u) == old(self).tick_actions(u),
            forall|u: int| #[trigger] final(self).tick_checksum(u) == old(self).tick_checksum(u),
    {
        let idx: usize = tick % SLOT_COUNT;
        let mut slot = QueueSlot::empty();
        let mut incoming = actions;
        self.slots.set_and_swap(idx, &mut slot);
        slot.actions.append(&mut incoming);
        self.slots.set(idx, slot);
        proof {
            let oldq = *old(self);
            let cur = *self;
            let t = tick as int;
            let fp = oldq.first_populated();
            assert forall|u: int|
                fp <= u < fp + SLOT_COUNT && u != t implies cur.cell(u) == oldq.cell(u) by {
                lemma_cell_distinct(u, t);
            }
            assert(cur.cell(t).state == oldq.cell(t).state);
            assert(cur.cell(t).actions@ == oldq.cell(t).actions@ + actions@);
            assert(actions_wf(cur.cell(t).actions@));
            assert(cur.wf());
            assert forall|u: int| #[trigger] cur.tick_state(u) == oldq.tick_state(u) by {
                if fp <= u < fp + SLOT_COUNT && u != t {
                    lemma_cell_distinct(u, t);
                }
            }
            assert forall|u: int|
                u != t implies #[trigger] cur.tick_actions(u) == oldq.tick_actions(u) by {
                if fp <= u < fp + SLOT_COUNT {
                    lemma_cell_distinct(u, t);
                }
            }
            assert forall|u: int| #[trigger] cur.tick_checksum(u) == oldq.tick_checksum(u) by {
                if fp <= u < fp + SLOT_COUNT && u != t {
                    lemma_cell_distinct(u, t);
                }
            }
        }
    }

    /// Appends one action to the still-open slot of `tick`.
    ///
    /// Fails when the tick is already being simulated or past
    /// (`PastTick`), when its list is already agreed
    /// (`AlreadyFinalized`), or when the ring has no free slot for it
    /// yet (`RingOverflow`); the queue is unchanged in every failure
    /// case.
    pub fn enqueue_action(&mut self, action: Action, tick: usize) -> (r: Result<
        (),
        TickQueueError,
    >)
        requires
            old(self).wf(),
            action.wf(),
        ensures
            final(self).wf(),
        forall|t: int|
            slot_state_progresses(
                old(self).tick_state(t),
                #[trigger] final(self).tick_state(t),
            ),
            r is Ok <==> {
                &&& old(self).next_tick() <= tick
                &&& tick < old(self).first_populated() + SLOT_COUNT
                &&& old(self).tick_state(tick as int) == QueueSlotState::Pending
            },
            r is Err ==> *final(self) == *old(self),
            r == Err::<(), TickQueueError>(TickQueueError::RingOverflow) <==> tick >= old(
                self,
            ).first_populated() + SLOT_COUNT,
            r == Err::<(), TickQueueError>(TickQueueError::PastTick) <==> tick < old(
                self,
            ).first_populated() + SLOT_COUNT && tick < old(self).next_tick(),
            r is Ok ==> {
                &&& final(self).next_tick() == old(self).next_tick()
                &&& final(self).last_finalized() == old(self).last_finalized()
                &&& final(self).first_populated() == old(self).first_populated()
                &&& forall|u: int| #[trigger] final(self).tick_state(u) == old(self).tick_state(u)
                &&& final(self).tick_actions(tick as int) == old(self).tick_actions(
                    tick as int,
                ).push(action)
                &&& forall|u: int|
                    u != tick ==> #[trigger] final(self).tick_actions(u) == old(self).tick_actions(
                        u,
                    )
                &&& forall|u: int|
                    #[trigger] final(self).tick_checksum(u) == old(self).tick_checksum(u)
                &&& (old(self).gapless() ==> final(self).gapless())
            },
    {
        match self.check_open(tick) {
            Err(e) => Err(e),
            Ok(()) => {
                let mut one: Vec<Action> = Vec::new();
                one.push(action);
                proof {
                    assert(old(self).tick_actions(tick as int) + one@ =~= old(self).tick_actions(
                        tick as int,
                    ).push(action));
                }
                self.cell_append_actions(tick, one);
                Ok(())
            },
        }
    }

    /// Appends several actions, in order, to the still-open slot of
    /// `tick`.  Failure cases are those of `enqueue_action`.
    pub fn enqueue_actions(&mut self, actions: Vec<Action>, tick: usize) -> (r: Result<
        (),
        TickQueueError,
    >)
        requires
            old(self).wf(),
            actions_wf(actions@),
        ensures
            final(self).wf(),
        forall|t: int|
            slot_state_progresses(
                old(self).tick_state(t),
                #[trigger] final(self).tick_state(t),
            ),
            r is Ok <==> {
                &&& old(self).next_tick() <= tick
                &&& tick < old(self).first_populated() + SLOT_COUNT
                &&& old(self).tick_state(tick as int) == QueueSlotState::Pending
            },
            r is Err ==> *final(self) == *old(self),
            r == Err::<(), TickQueueError>(TickQueueError::RingOverflow) <==> tick >= old(
                self,
            ).first_populated() + SLOT_COUNT,
            r == Err::<(), TickQueueError>(TickQueueError::PastTick) <==> tick < old(
                self,
            ).first_populated() + SLOT_COUNT && tick < old(self).next_tick(),
            r is Ok ==> {
                &&& final(self).next_tick() == old(self).next_tick()
                &&& final(self).last_finalized() == old(self).last_finalized()
                &&& final(self).first_populated() == old(self).first_populated()
                &&& forall|u: int| #[trigger] final(self).tick_state(u) == old(self).tick_state(u)
                &&& final(self).tick_actions(tick as int) == old(self).tick_actions(tick as int)
                    + actions@
                &&& forall|u: int|
                    u != tick ==> #[trigger] final(self).tick_actions(u) == old(self).tick_actions(
                        u,
                    )
                &&& forall|u: int|
                    #[trigger] final(self).tick_checksum(u) == old(self).tick_checksum(u)
                &&& (old(self).gapless() ==> final(self).gapless())
            },
    {
        match self.check_open(tick) {
            Err(e) => Err(e),
            Ok(()) => {
                self.cell_append_actions(tick, actions);
                Ok(())
            },
        }
    }

    /// Appends one action to the first still-mutable tick, the one
    /// right after the contiguous finalized prefix.  Fails only when
    /// the ring has no free slot for that tick.
    pub fn enqueue_action_immediately(&mut self, action: Action) -> (r: Result<
        (),
        TickQueueError,
    >)
        requires
            old(self).wf(),
            action.wf(),
        ensures
            final(self).wf(),
        forall|t: int|
            slot_state_progresses(
                old(self).tick_state(t),
                #[trigger] final(self).tick_state(t),
            ),
            r is Ok <==> old(self).last_finalized() + 1 < old(self).first_populated() + SLOT_COUNT,
            r is Err ==> *final(self) == *old(self) && r == Err::<(), TickQueueError>(
                TickQueueError::RingOverflow,
            ),
            r is Ok ==> {
                &&& final(self).next_tick() == old(self).next_tick()
                &&& final(self).last_finalized() == old(self).last_finalized()
                &&& final(self).first_populated() == old(self).first_populated()
                &&& forall|u: int| #[trigger] final(self).tick_state(u) == old(self).tick_state(u)
                &&& final(self).tick_actions(old(self).last_finalized() + 1) == old(
                    self,
                ).tick_actions(old(self).last_finalized() + 1).push(action)
                &&& forall|u: int|
                    u != old(self).last_finalized() + 1 ==> #[trigger] final(self).tick_actions(u)
                        == old(self).tick_actions(u)
                &&& forall|u: int|
                    #[trigger] final(self).tick_checksum(u) == old(self).tick_checksum(u)
                &&& (old(self).gapless() ==> final(self).gapless())
            },
    {
        let tick: usize = self.last_finalized_tick + 1;
        proof {
            let q = *self;
            if q.last_finalized() + 1 < q.first_populated() + SLOT_COUNT {
                assert(q.tick_state(q.last_finalized() + 1) == QueueSlotState::Pending);
            }
        }
        self.enqueue_action(action, tick)
    }

    /// Appends several actions to the first still-mutable tick.  Fails
    /// only when the ring has no free slot for that tick.
    pub fn enqueue_actions_immediately(&mut self, actions: Vec<Action>) -> (r: Result<
        (),
        TickQueueError,
    >)
        requires
            old(self).wf(),
            actions_wf(actions@),
        ensures
            final(self).wf(),
        forall|t: int|
            slot_state_progresses(
                old(self).tick_state(t),
                #[trigger] final(self).tick_state(t),
            ),
            r is Ok <==> old(self).last_finalized() + 1 < old(self).first_populated() + SLOT_COUNT,
            r is Err ==> *final(self) == *old(self) && r == Err::<(), TickQueueError>(
                TickQueueError::RingOverflow,
            ),
            r is Ok ==> {
                &&& final(self).next_tick() == old(self).next_tick()
                &&& final(self).last_finalized() == old(self).last_finalized()
                &&& final(self).first_populated() == old(self).first_populated()
                &&& forall|u: int| #[trigger] final(self).tick_state(u) == old(self).tick_state(u)
                &&& final(self).tick_actions(old(self).last_finalized() + 1) == old(
                    self,
                ).tick_actions(old(self).last_finalized() + 1) + actions@
                &&& forall|u: int|
                    u != old(self).last_finalized() + 1 ==> #[trigger] final(self).tick_actions(u)
                        == old(self).tick_actions(u)
                &&& forall|u: int|
                    #[trigger] final(self).tick_checksum(u) == old(self).tick_checksum(u)
                &&& (old(self).gapless() ==> final(self).gapless())
            },
    {
        let tick: usize = self.last_finalized_tick + 1;
        proof {
            let q = *self;
            if q.last_finalized() + 1 < q.first_populated() + SLOT_COUNT {
                assert(q.tick_state(q.last_finalized() + 1) == QueueSlotState::Pending);
            }
        }
        self.enqueue_actions(actions, tick)
    }

    /// Marks `tick`'s slot finalized and extends the contiguous
    /// finalized prefix as far as it now reaches.
    ///
    /// Fails on a past or already finalized tick and when the ring has
    /// no free slot; the queue is unchanged in every failure case.
    pub fn finalize_tick(&mut self, tick: usize) -> (r: Result<(), TickQueueError>)
        requires
            old(self).wf(),
        ensures
            final(self).wf(),
        forall|t: int|
            slot_state_progresses(
                old(self).tick_state(t),
                #[trigger] final(self).tick_state(t),
            ),
            r is Ok <==> {
                &&& old(self).next_tick() <= tick
                &&& tick < old(self).first_populated() + SLOT_COUNT
                &&& old(self).tick_state(tick as int) == QueueSlotState::Pending
            },
            r is Err ==> *final(self) == *old(self),
            r == Err::<(), TickQueueError>(TickQueueError::RingOverflow) <==> tick >= old(
                self,
            ).first_populated() + SLOT_COUNT,
            r == Err::<(), TickQueueError>(TickQueueError::PastTick) <==> tick < old(
                self,
            ).first_populated() + SLOT_COUNT && tick < old(self).next_tick(),
            r == Err::<(), TickQueueError>(TickQueueError::AlreadyFinalized) <==> {
                &&& old(self).next_tick() <= tick
                &&& tick < old(self).first_populated() + SLOT_COUNT
                &&& old(self).tick_state(tick as int) == QueueSlotState::Finalized
            },
            r is Ok ==> {
                &&& final(self).next_tick() == old(self).next_tick()
                &&& final(self).first_populated() == old(self).first_populated()
                &&& final(self).tick_state(tick as int) == QueueSlotState::Finalized
                &&& forall|u: int|
                    u != tick ==> #[trigger] final(self).tick_state(u) == old(self).tick_state(u)
                &&& forall|u: int|
                    #[trigger] final(self).tick_actions(u) == old(self).tick_actions(u)
                &&& forall|u: int|
                    #[trigger] final(self).tick_checksum(u) == old(self).tick_checksum(u)
                &&& final(self).last_finalized() >= old(self).last_finalized()
                &&& (tick != old(self).last_finalized() + 1 ==> final(self).last_finalized()
                    == old(self).last_finalized())
                &&& (old(self).gapless() && tick == old(self).last_finalized() + 1 ==> {
                    &&& final(self).last_finalized() == tick
                    &&& final(self).gapless()
                })
            },
    {
        match self.check_open(tick) {
            Err(e) => {
                return Err(e);
            },
            Ok(()) => {},
        }
        let idx: usize = tick % SLOT_COUNT;
        let mut slot = QueueSlot::empty();
        self.slots.set_and_swap(idx, &mut slot);
        slot.state = QueueSlotState::Finalized;
        self.slots.set(idx, slot);
        let ghost mid = *self;
        proof {
            let oldq = *old(self);
            let t = tick as int;
            let fp = oldq.first_populated();
            assert forall|u: int|
                fp <= u < fp + SLOT_COUNT && u != t implies mid.cell(u) == oldq.cell(u) by {
                lemma_cell_distinct(u, t);
            }
            assert(mid.cell(t).state == QueueSlotState::Finalized);
            assert(mid.cell(t).actions == oldq.cell(t).actions);
        }
        // Extend the contiguous finalized prefix.
        while self.is_prefix_extension_finalized()
            invariant
                self.slots@ == mid.slots@,
                self.slots@.len() == SLOT_COUNT,
                self.next_tick_to_simulate == mid.next_tick_to_simulate,
                self.first_populated_slot == mid.first_populated_slot,
                mid.first_populated() + 2 * SLOT_COUNT <= usize::MAX,
                1 <= self.next_tick(),
                mid.first_populated() <= self.next_tick() - 1,
                mid.last_finalized() <= self.last_finalized() < mid.first_populated()
                    + SLOT_COUNT,
                self.next_tick() - 1 <= self.last_finalized(),
                forall|u: int|
                    mid.first_populated() <= u < self.next_tick() ==> (#[trigger] mid.cell(
                        u,
                    )).state != QueueSlotState::Finalized,
                forall|u: int|
                    self.next_tick() <= u <= self.last_finalized() ==> (#[trigger] mid.cell(
                        u,
                    )).state == QueueSlotState::Finalized,
            decreases mid.first_populated() + SLOT_COUNT - self.last_finalized(),
        {
            proof {
                let fp = mid.first_populated();
                let lft = self.last_finalized();
                assert(self.cell(lft + 1) == mid.cell(lft + 1));
                if lft + 1 == fp + SLOT_COUNT {
                    vstd::arithmetic::div_mod::lemma_mod_multiples_vanish(
                        1,
                        fp,
                        SLOT_COUNT as int,
                    );
                    assert(mid.cell(lft + 1) == mid.cell(fp));
                    assert(false);
                }
                assert(mid.cell(lft + 1).state == QueueSlotState::Finalized);
            }
            self.last_finalized_tick = self.last_finalized_tick + 1;
        }
        proof {
            let oldq = *old(self);
            let cur = *self;
            let t = tick as int;
            let fp = oldq.first_populated();
            let lft2 = cur.last_finalized();
            assert(cur.cell(lft2 + 1).state != QueueSlotState::Finalized);
            assert forall|u: int| #![trigger cur.cell(u)] cur.cell(u) == mid.cell(u) by {}
            assert forall|u: int|
                fp <= u < fp + SLOT_COUNT && u != t implies cur.cell(u) == oldq.cell(u) by {
                lemma_cell_distinct(u, t);
            }
            assert(t != lft2 + 1);
            if lft2 + 1 < fp + SLOT_COUNT {
                assert(cur.cell(lft2 + 1) == oldq.cell(lft2 + 1)) by {
                    lemma_cell_distinct(lft2 + 1, t);
                }
                assert(oldq.cell(lft2 + 1).state != QueueSlotState::Simulated);
                assert(cur.cell(lft2 + 1).state == QueueSlotState::Pending);
            }
            assert(cur.wf());
            assert forall|u: int|
                u != t implies #[trigger] cur.tick_state(u) == oldq.tick_state(u) by {
                if fp <= u < fp + SLOT_COUNT {
                    lemma_cell_distinct(u, t);
                }
            }
            assert forall|u: int| #[trigger] cur.tick_actions(u) == oldq.tick_actions(u) by {
                if fp <= u < fp + SLOT_COUNT && u != t {
                    lemma_cell_distinct(u, t);
                }
            }
            assert forall|u: int| #[trigger] cur.tick_checksum(u) == oldq.tick_checksum(u) by {
                if fp <= u < fp + SLOT_COUNT && u != t {
                    lemma_cell_distinct(u, t);
                }
            }
            if tick != oldq.last_finalized() + 1 {
                assert(mid.cell(oldq.last_finalized() + 1).state != QueueSlotState::Finalized)
                    by {
                    if oldq.last_finalized() + 1 < fp + SLOT_COUNT {
                        lemma_cell_distinct(oldq.last_finalized() + 1, t);
                    } else {
                        vstd::arithmetic::div_mod::lemma_mod_multiples_vanish(
                            1,
                            fp,
                            SLOT_COUNT as int,
                        );
                        assert(mid.cell(oldq.last_finalized() + 1) == mid.cell(fp));
                    }
                }
            }
            if oldq.gapless() && tick == oldq.last_finalized() + 1 {
                assert(cur.last_finalized() == t) by {
                    if t + 1 < fp + SLOT_COUNT {
                        assert(oldq.tick_state(t + 1) != QueueSlotState::Finalized);
                        assert(mid.cell(t + 1).state != QueueSlotState::Finalized) by {
                            lemma_cell_distinct(t + 1, t);
                        }
                    } else {
                        vstd::arithmetic::div_mod::lemma_mod_multiples_vanish(
                            1,
                            fp,
                            SLOT_COUNT as int,
                        );
                        assert(mid.cell(t + 1) == mid.cell(fp));
                    }
                }
                assert forall|u: int|
                    u > cur.last_finalized() implies #[trigger] cur.tick_state(u)
                        != QueueSlotState::Finalized by {
                    assert(cur.tick_state(u) == oldq.tick_state(u));
                }
            }
        }
        Ok(())
    }

    /// Whether the slot one past the contiguous finalized prefix is
    /// itself finalized, while the prefix is being extended.
    fn is_prefix_extension_finalized(&self) -> (r: bool)
        requires
            self.slots@.len() == SLOT_COUNT,
            self.last_finalized() + 1 <= usize::MAX,
        ensures
            r == (self.cell(self.last_finalized() + 1).state == QueueSlotState::Finalized),
    {
        self.slots[(self.last_finalized_tick + 1) % SLOT_COUNT].is_finalized()
    }

    /// Appends actions to `tick`'s slot and finalizes it, atomically:
    /// on any failure the queue is unchanged and the actions are
    /// dropped.  Failure cases are those of `finalize_tick`.
    pub fn finalize_tick_with_actions(&mut self, tick: usize, actions: Vec<Action>) -> (r: Result<
        (),
        TickQueueError,
    >)
        requires
            old(self).wf(),
            actions_wf(actions@),
        ensures
            final(self).wf(),
        forall|t: int|
            slot_state_progresses(
                old(self).tick_state(t),
                #[trigger] final(self).tick_state(t),
            ),
            r is Ok <==> {
                &&& old(self).next_tick() <= tick
                &&& tick < old(self).first_populated() + SLOT_COUNT
                &&& old(self).tick_state(tick as int) == QueueSlotState::Pending
            },
            r is Err ==> *final(self) == *old(self),
            r == Err::<(), TickQueueError>(TickQueueError::RingOverflow) <==> tick >= old(
                self,
            ).first_populated() + SLOT_COUNT,
            r == Err::<(), TickQueueError>(TickQueueError::PastTick) <==> tick < old(
                self,
            ).first_populated() + SLOT_COUNT && tick < old(self).next_tick(),
            r == Err::<(), TickQueueError>(TickQueueError::AlreadyFinalized) <==> {
                &&& old(self).next_tick() <= tick
                &&& tick < old(self).first_populated() + SLOT_COUNT
                &&& old(self).tick_state(tick as int) == QueueSlotState::Finalized
            },
            r is Ok ==> {
                &&& final(self).next_tick() == old(self).next_tick()
                &&& final(self).first_populated() == old(self).first_populated()
                &&& final(self).tick_state(tick as int) == QueueSlotState::Finalized
                &&& forall|u: int|
                    u != tick ==> #[trigger] final(self).tick_state(u) == old(self).tick_state(u)
                &&& final(self).tick_actions(tick as int) == old(self).tick_actions(tick as int)
                    + actions@
                &&& forall|u: int|
                    u != tick ==> #[trigger] final(self).tick_actions(u) == old(self).tick_actions(
                        u,
                    )
                &&& forall|u: int|
                    #[trigger] final(self).tick_checksum(u) == old(self).tick_checksum(u)
                &&& final(self).last_finalized() >= old(self).last_finalized()
                &&& (tick != old(self).last_finalized() + 1 ==> final(self).last_finalized()
                    == old(self).last_finalized())
                &&& (old(self).gapless() && tick == old(self).last_finalized() + 1 ==> {
                    &&& final(self).last_finalized() == tick
                    &&& final(self).gapless()
                })
            },
    {
        match self.check_open(tick) {
            Err(e) => {
                return Err(e);
            },
            Ok(()) => {},
        }
        self.cell_append_actions(tick, actions);
        let r = self.finalize_tick(tick);
        proof {
            assert(r is Ok);
        }
        r
    }

    /// Recycles the slots of all ticks before `tick`, which no peer
    /// references any longer; the window of usable slots moves up
    /// accordingly.  Only already simulated ticks may be released.
    pub fn reset_through(&mut self, tick: usize)
        requires
            old(self).wf(),
            old(self).first_populated() <= tick,
            tick < old(self).next_tick(),
            tick + 2 * SLOT_COUNT <= usize::MAX,
        ensures
            final(self).wf(),
        forall|t: int|
            slot_state_progresses(
                old(self).tick_state(t),
                #[trigger] final(self).tick_state(t),
            ),
            final(self).next_tick() == old(self).next_tick(),
            final(self).last_finalized() == old(self).last_finalized(),
            final(self).first_populated() == tick,
            forall|u: int| #[trigger] final(self).tick_state(u) == old(self).tick_state(u),
            forall|u: int|
                u >= tick ==> #[trigger] final(self).tick_actions(u) == old(self).tick_actions(u),
            forall|u: int|
                u >= tick ==> #[trigger] final(self).tick_checksum(u) == old(self).tick_checksum(
                    u,
                ),
            old(self).gapless() ==> final(self).gapless(),
    {
        let ghost oldq = *old(self);
        let mut t: usize = self.first_populated_slot;
        while t < tick
            invariant
                oldq.wf(),
                oldq.first_populated() <= t <= tick,
                tick < oldq.next_tick(),
                self.next_tick_to_simulate == oldq.next_tick_to_simulate,
                self.last_finalized_tick == oldq.last_finalized_tick,
                self.first_populated_slot == oldq.first_populated_slot,
                self.slots@.len() == SLOT_COUNT,
                forall|u: int|
                    t <= u < oldq.first_populated() + SLOT_COUNT ==> #[trigger] self.cell(u)
                        == oldq.cell(u),
                forall|u: int|
                    oldq.first_populated() <= u < t ==> {
                        &&& (#[trigger] self.cell(u)).state == QueueSlotState::Pending
                        &&& self.cell(u).actions@ == Seq::<Action>::empty()
                        &&& self.cell(u).checksum == 0
                    },
            decreases tick - t,
        {
            let idx: usize = t % SLOT_COUNT;
            let ghost pre = *self;
            self.slots.set(idx, QueueSlot::empty());
            proof {
                let fp = oldq.first_populated();
                assert(self.cell(t as int).state == QueueSlotState::Pending);
                assert forall|u: int|
                    t + 1 <= u < fp + SLOT_COUNT implies self.cell(u) == oldq.cell(u) by {
                    lemma_cell_distinct(u, t as int);
                    assert(self.cell(u) == pre.cell(u));
                }
                assert forall|u: int|
                    fp <= u < t + 1 implies {
                        &&& (#[trigger] self.cell(u)).state == QueueSlotState::Pending
                        &&& self.cell(u).actions@ == Seq::<Action>::empty()
                        &&& self.cell(u).checksum == 0
                    } by {
                    if u < t {
                        lemma_cell_distinct(u, t as int);
                        assert(self.cell(u) == pre.cell(u));
                    }
                }
            }
            t = t + 1;
        }
        let ghost done = *self;
        self.first_populated_slot = tick;
        proof {
            let cur = *self;
            let fp = oldq.first_populated();
            let tk = tick as int;
            assert forall|u: int| #![trigger cur.cell(u)] cur.cell(u) == done.cell(u) by {}
            // Cells that alias freshly released ones belong to ticks one
            // ring turn later; both read as pending and empty.
            assert forall|u: int|
                fp + SLOT_COUNT <= u < tk + SLOT_COUNT implies {
                    &&& (#[trigger] cur.cell(u)).state == QueueSlotState::Pending
                    &&& cur.cell(u).actions@ == Seq::<Action>::empty()
                    &&& cur.cell(u).checksum == 0
                } by {
                vstd::arithmetic::div_mod::lemma_mod_multiples_vanish(
                    -1,
                    u,
                    SLOT_COUNT as int,
                );
                assert((SLOT_COUNT as int) * -1 + u == u - SLOT_COUNT);
                assert((u - SLOT_COUNT) % (SLOT_COUNT as int) == u % (SLOT_COUNT as int));
                assert(cur.cell(u) == cur.cell(u - SLOT_COUNT));
                assert(fp <= u - SLOT_COUNT < tk);
                assert(done.cell(u - SLOT_COUNT).state == QueueSlotState::Pending);
            }
            assert forall|u: int|
                tk <= u < fp + SLOT_COUNT implies cur.cell(u) == oldq.cell(u) by {}
            assert(cur.wf());
            assert forall|u: int| #[trigger] cur.tick_state(u) == oldq.tick_state(u) by {
                if u < cur.next_tick() {
                } else if u < fp + SLOT_COUNT {
                } else if u < tk + SLOT_COUNT {
                    assert(cur.tick_state(u) == cur.cell(u).state);
                    assert(oldq.tick_state(u) == QueueSlotState::Pending);
                }
            }
            assert forall|u: int|
                u >= tk implies #[trigger] cur.tick_actions(u) == oldq.tick_actions(u) by {
                if u < fp + SLOT_COUNT {
                } else if u < tk + SLOT_COUNT {
                    assert(cur.tick_actions(u) == cur.cell(u).actions@);
                    assert(oldq.tick_actions(u) == Seq::<Action>::empty());
                }
            }
            assert forall|u: int|
                u >= tk implies #[trigger] cur.tick_checksum(u) == oldq.tick_checksum(u) by {
                if u < fp + SLOT_COUNT {
                } else if u < tk + SLOT_COUNT {
                    assert(cur.tick_checksum(u) == cur.cell(u).checksum);
                    assert(oldq.tick_checksum(u) == 0);
                }
            }
        }
    }

    /// Recycles the slots of everything already simulated.
    pub fn reset_simulated(&mut self)
        requires
            old(self).wf(),
            old(self).next_tick() - 1 + 2 * SLOT_COUNT <= usize::MAX,
        ensures
            final(self).wf(),
        forall|t: int|
            slot_state_progresses(
                old(self).tick_state(t),
                #[trigger] final(self).tick_state(t),
            ),
            final(self).next_tick() == old(self).next_tick(),
            final(self).last_finalized() == old(self).last_finalized(),
            final(self).first_populated() == old(self).next_tick() - 1,
            forall|u: int| #[trigger] final(self).tick_state(u) == old(self).tick_state(u),
            forall|u: int|
                u >= old(self).next_tick() - 1 ==> #[trigger] final(self).tick_actions(u) == old(
                    self,
                ).tick_actions(u),
            forall|u: int|
                u >= old(self).next_tick() - 1 ==> #[trigger] final(self).tick_checksum(u) == old(
                    self,
                ).tick_checksum(u),
            old(self).gapless() ==> final(self).gapless(),
    {
        let last_sim: usize = self.next_tick_to_simulate - 1;
        self.reset_through(last_sim);
    }

    /// Builds the `FinalizedTick` messages that bring a peer from
    /// `from_tick` up to the current finalized horizon, in tick order,
    /// and reports that horizon.
    pub fn make_tick_finalization_messages(&self, from_tick: usize) -> (r: (
        usize,
        Vec<NetworkMessage>,
    ))
        requires
            self.wf(),
            from_tick >= self.next_tick(),
        ensures
            r.0 == self.last_finalized(),
            from_tick > self.last_finalized() ==> r.1@.len() == 0,
            from_tick <= self.last_finalized() ==> r.1@.len() == self.last_finalized() - from_tick
                + 1,
            forall|i: int|
                0 <= i < r.1@.len() ==> (#[trigger] r.1@[i] matches NetworkMessage::FinalizedTick {
                    tick,
                    actions,
                } && tick == from_tick + i && actions@ == self.tick_actions(from_tick + i)),
            crate::messages::messages_wf(r.1@),
    {
        let mut messages: Vec<NetworkMessage> = Vec::new();
        let mut t: usize = from_tick;
        if t > self.last_finalized_tick {
            return (self.last_finalized_tick, messages);
        }
        while t <= self.last_finalized_tick
            invariant
                self.wf(),
                self.next_tick() <= from_tick <= t <= self.last_finalized() + 1,
                messages@.len() == t - from_tick,
                forall|i: int|
                    0 <= i < messages@.len() ==> (#[trigger] messages@[i]
                        matches NetworkMessage::FinalizedTick { tick, actions } && tick == from_tick
                        + i && actions@ == self.tick_actions(from_tick + i)),
                crate::messages::messages_wf(messages@),
            decreases self.last_finalized() + 1 - t,
        {
            let actions = crate::actions::clone_actions(&self.slots[t % SLOT_COUNT].actions);
            proof {
                assert(self.tick_actions(t as int) == self.cell(t as int).actions@);
                assert(actions_wf(actions@));
                assert(actions@.len() <= usize::MAX);
            }
            messages.push(NetworkMessage::FinalizedTick { tick: t, actions });
            t = t + 1;
        }
        (self.last_finalized_tick, messages)
    }
}

/// The arithmetic relations among a well-formed queue's counters,
/// stated for callers outside this module.
pub proof fn lemma_wf_bounds(q: ResTickQueue)
    requires
        q.wf(),
    ensures
        1 <= q.next_tick(),
        q.first_populated() <= q.next_tick() - 1,
        q.next_tick() - 1 <= q.last_finalized(),
        q.last_finalized() < q.first_populated() + SLOT_COUNT,
        q.first_populated() + 2 * SLOT_COUNT <= usize::MAX,
{
}

/// Every tick before the simulation point counts as simulated: the
/// simulation never leaves a gap behind itself.
pub proof fn lemma_simulated_prefix(q: ResTickQueue, t: int)
    requires
        q.wf(),
        t < q.next_tick(),
    ensures
        q.tick_state(t) == QueueSlotState::Simulated,
{
}

/// `last_finalized` really is the greatest tick `T` such that every
/// tick in `1..=T` is finalized or simulated: every tick up to it is,
/// and the tick right after it is not.
pub proof fn lemma_finalization_horizon(q: ResTickQueue)
    requires
        q.wf(),
    ensures
        q.next_tick() - 1 <= q.last_finalized(),
        forall|u: int|
            1 <= u <= q.last_finalized() ==> (#[trigger] q.tick_state(u)
                == QueueSlotState::Finalized || q.tick_state(u) == QueueSlotState::Simulated),
        q.tick_state(q.last_finalized() + 1) == QueueSlotState::Pending,
{
    let lft = q.last_finalized();
    let fp = q.first_populated();
    if lft + 1 >= fp + SLOT_COUNT {
        assert(q.tick_state(lft + 1) == QueueSlotState::Pending);
    }
}

/// Ticks that lie in one window of `SLOT_COUNT` consecutive ticks
/// occupy distinct cells.
proof fn lemma_cell_distinct(t1: int, t2: int)
    requires
        0 <= t1,
        0 <= t2,
        t1 != t2,
        -(SLOT_COUNT as int) < t1 - t2 < SLOT_COUNT as int,
    ensures
        t1 % (SLOT_COUNT as int) != t2 % (SLOT_COUNT as int),
{
    let n = SLOT_COUNT as int;
    vstd::arithmetic::div_mod::lemma_fundamental_div_mod(t1, n);
    vstd::arithmetic::div_mod::lemma_fundamental_div_mod(t2, n);
    if t1 % n == t2 % n {
        let d1 = t1 / n;
        let d2 = t2 / n;
        assert(t1 - t2 == n * d1 - n * d2);
        assert(n * d1 - n * d2 == n * (d1 - d2)) by (nonlinear_arith);
        assert(d1 != d2);
        assert(d1 - d2 >= 1 ==> n * (d1 - d2) >= n) by (nonlinear_arith)
            requires
                n >= 1,
        ;
        assert(d1 - d2 <= -1 ==> n * (d1 - d2) <= -n) by (nonlinear_arith)
            requires
                n >= 1,
        ;
        assert(false);
    }
}

/// A tick below `SLOT_COUNT` is its own cell index.
proof fn lemma_mod_window(t: int)
    requires
        0 <= t < SLOT_COUNT as int,
    ensures
        t % (SLOT_COUNT as int) == t,
{
    vstd::arithmetic::div_mod::lemma_small_mod(t as nat, SLOT_COUNT as nat);
}

} // verus!
