//! A lighter tick ring that tracks only pending and finalized slots.
//!
//! [`TickQueue`] is the reduced form of the tick queue used where no
//! per-tick checksum is recorded: a slot is pending until its action
//! list is agreed, and is recycled the moment its tick has been
//! consumed.  `current_tick` is the tick whose actions are about to be
//! applied; `advance` clears its slot and moves on.  The ring holds
//! [`RING_SLOT_COUNT`] slots, so the finalization horizon can run at
//! most one ring turn ahead of the consumed tick.

use crate::actions::{actions_wf, Action};
use crate::messages::NetworkMessage;
use crate::tick_queue::{QueueSlotState, TickQueueError};
use vstd::pervasive::VecAdditionalExecFns;
use vstd::prelude::*;

verus! {

/// Number of slots in the ring.
pub const RING_SLOT_COUNT: usize = 1024;

/// One slot of the ring: its phase and the actions attached to its
/// tick.
pub struct QueueSlot {
    /// `Pending` or `Finalized`; this ring never records simulation.
    pub state: QueueSlotState,
    /// The ordered action list of the tick occupying this slot.
    pub actions: Vec<Action>,
}

impl QueueSlot {
    /// A fresh, empty, pending slot.
    pub fn empty() -> (r: QueueSlot)
        ensures
            r.state == QueueSlotState::Pending,
            r.actions@ == Seq::<Action>::empty(),
    {
        QueueSlot { state: QueueSlotState::Pending, actions: Vec::new() }
    }

    /// Whether the slot's action list may still change.
    pub fn is_pending(&self) -> (r: bool)
        ensures
            r == (self.state == QueueSlotState::Pending),
    {
        matches!(self.state, QueueSlotState::Pending)
    }

    /// Whether the slot's action list is agreed and immutable.
    pub fn is_finalized(&self) -> (r: bool)
        ensures
            r == (self.state == QueueSlotState::Finalized),
    {
        matches!(self.state, QueueSlotState::Finalized)
    }

    /// Returns the slot to its initial pending, empty state.
    pub fn reset(&mut self)
        ensures
            final(self).state == QueueSlotState::Pending,
            final(self).actions@ == Seq::<Action>::empty(),
    {
        self.state = QueueSlotState::Pending;
        self.actions.clear();
    }
}

/// The reduced tick ring.
pub struct TickQueue {
    /// The tick whose actions are about to be applied.  Public so that
    /// an embedding driver can display progress; the methods keep it
    /// consistent with the ring.
    pub current_tick: usize,
    last_finalized_tick: usize,
    slots: Vec<QueueSlot>,
}

impl TickQueue {
    /// The ring cell that tick `t` occupies.
    pub closed spec fn cell(self, t: int) -> QueueSlot {
        self.slots@[t % (RING_SLOT_COUNT as int)]
    }

    /// The tick whose actions are about to be applied.
    pub closed spec fn current(self) -> int {
        self.current_tick as int
    }

    /// The largest tick up to which the finalized prefix is contiguous.
    pub closed spec fn last_finalized(self) -> int {
        self.last_finalized_tick as int
    }

    /// The queue's internal invariant.
    pub closed spec fn wf(self) -> bool {
        let cur = self.current();
        let lft = self.last_finalized();
        &&& self.slots@.len() == RING_SLOT_COUNT
        &&& cur <= lft
        &&& lft < cur + RING_SLOT_COUNT
        &&& cur + 2 * RING_SLOT_COUNT <= usize::MAX
        &&& forall|t: int|
            cur <= t <= lft ==> (#[trigger] self.cell(t)).state == QueueSlotState::Finalized
        &&& (lft + 1 < cur + RING_SLOT_COUNT ==> self.cell(lft + 1).state
            == QueueSlotState::Pending)
        &&& forall|t: int|
            lft < t < cur + RING_SLOT_COUNT ==> (#[trigger] self.cell(t)).state
                != QueueSlotState::Simulated
        &&& forall|t: int|
            cur <= t < cur + RING_SLOT_COUNT ==> actions_wf((#[trigger] self.cell(t)).actions@)
    }

    /// The phase of tick `t`: the slot's phase inside the ring window,
    /// pending beyond it.
    pub closed spec fn tick_state(self, t: int) -> QueueSlotState {
        if self.current() <= t < self.current() + RING_SLOT_COUNT {
            self.cell(t).state
        } else {
            QueueSlotState::Pending
        }
    }

    /// The action list currently attached to tick `t` (empty outside
    /// the ring window).
    pub closed spec fn tick_actions(self, t: int) -> Seq<Action> {
        if self.current() <= t < self.current() + RING_SLOT_COUNT {
            self.cell(t).actions@
        } else {
            Seq::<Action>::empty()
        }
    }

    /// No tick beyond the contiguous prefix is finalized.
    pub open spec fn gapless(self) -> bool {
        forall|t: int|
            t > self.last_finalized() ==> #[trigger] self.tick_state(t)
                != QueueSlotState::Finalized
    }

    /// A fresh ring: tick 0 finalized and empty, so consumption can
    /// start at once; everything else pending.
    pub fn new() -> (r: TickQueue)
        ensures
            r.wf(),
            r.gapless(),
            r.current() == 0,
            r.last_finalized() == 0,
            forall|t: int| #[trigger] r.tick_actions(t) == Seq::<Action>::empty(),
            forall|t: int|
                #[trigger] r.tick_state(t) == if t == 0 {
                    QueueSlotState::Finalized
                } else {
                    QueueSlotState::Pending
                },
    {
        let mut slots: Vec<QueueSlot> = Vec::new();
        let mut i: usize = 0;
        while i < RING_SLOT_COUNT
            invariant
                0 <= i <= RING_SLOT_COUNT,
                slots@.len() == i,
                forall|j: int|
                    0 <= j < i ==> {
                        &&& (#[trigger] slots@[j]).state == QueueSlotState::Pending
                        &&& slots@[j].actions@ == Seq::<Action>::empty()
                    },
            decreases RING_SLOT_COUNT - i,
        {
            slots.push(QueueSlot::empty());
            i = i + 1;
        }
        let mut first = QueueSlot::empty();
        first.state = QueueSlotState::Finalized;
        slots.set(0, first);
        let r = TickQueue { current_tick: 0, last_finalized_tick: 0, slots };
        proof {
            assert forall|t: int| 0 <= t < RING_SLOT_COUNT implies #[trigger] r.cell(t)
                == r.slots@[t] by {
                ring_mod_window(t);
            }
            assert forall|t: int| #[trigger] r.tick_actions(t) == Seq::<Action>::empty() by {
                if 0 <= t < RING_SLOT_COUNT {
                    ring_mod_window(t);
                }
            }
            assert forall|t: int|
                #[trigger] r.tick_state(t) == if t == 0 {
                    QueueSlotState::Finalized
                } else {
                    QueueSlotState::Pending
                } by {
                if 0 <= t < RING_SLOT_COUNT {
                    ring_mod_window(t);
                }
            }
        }
        r
    }

    /// The largest tick up to which the finalized prefix is contiguous.
    pub fn get_last_finalized_tick(&self) -> (r: usize)
        ensures
            r == self.last_finalized(),
    {
        self.last_finalized_tick
    }

    /// Re-bases the ring after joining a session in progress: `tick`
    /// becomes the consumed-and-finalized point and everything else is
    /// pending and empty.
    pub fn set_last_finalized_tick(&mut self, tick: usize)
        requires
            old(self).wf(),
            tick + 2 * RING_SLOT_COUNT <= usize::MAX,
        ensures
            final(self).wf(),
            final(self).gapless(),
            final(self).current() == tick,
            final(self).last_finalized() == tick,
            forall|t: int| #[trigger] final(self).tick_actions(t) == Seq::<Action>::empty(),
            forall|t: int|
                #[trigger] final(self).tick_state(t) == if t == tick {
                    QueueSlotState::Finalized
                } else {
                    QueueSlotState::Pending
                },
    {
        let mut i: usize = 0;
        while i < RING_SLOT_COUNT
            invariant
                0 <= i <= RING_SLOT_COUNT,
                self.slots@.len() == RING_SLOT_COUNT,
                forall|j: int|
                    0 <= j < i ==> {
                        &&& (#[trigger] self.slots@[j]).state == QueueSlotState::Pending
                        &&& self.slots@[j].actions@ == Seq::<Action>::empty()
                    },
            decreases RING_SLOT_COUNT - i,
        {
            self.slots.set(i, QueueSlot::empty());
            i = i + 1;
        }
        let idx: usize = tick % RING_SLOT_COUNT;
        let mut slot = QueueSlot::empty();
        slot.state = QueueSlotState::Finalized;
        self.slots.set(idx, slot);
        self.current_tick = tick;
        self.last_finalized_tick = tick;
        proof {
            let cur = *self;
            let tk = tick as int;
            assert(cur.cell(tk).state == QueueSlotState::Finalized);
            assert forall|t: int|
                tk <= t < tk + RING_SLOT_COUNT && t != tk implies (#[trigger] cur.cell(t)).state
                    == QueueSlotState::Pending && cur.cell(t).actions@ == Seq::<
                Action,
            >::empty() by {
                ring_cell_distinct(t, tk);
            }
            assert(cur.wf());
            assert forall|t: int| #[trigger] cur.tick_actions(t) == Seq::<Action>::empty() by {
                if tk <= t < tk + RING_SLOT_COUNT && t != tk {
                    ring_cell_distinct(t, tk);
                }
            }
            assert forall|t: int|
                #[trigger] cur.tick_state(t) == if t == tk {
                    QueueSlotState::Finalized
                } else {
                    QueueSlotState::Pending
                } by {
                if tk <= t < tk + RING_SLOT_COUNT && t != tk {
                    ring_cell_distinct(t, tk);
                }
            }
        }
    }

    /// The action list of the tick about to be applied.
    pub fn current_tick_actions(&self) -> (r: &Vec<Action>)
        requires
            self.wf(),
        ensures
            r@ == self.tick_actions(self.current()),
            actions_wf(r@),
    {
        &self.slots[self.current_tick % RING_SLOT_COUNT].actions
    }

    /// The action list of the latest finalized tick.
    pub fn last_finalized_tick_actions(&self) -> (r: &Vec<Action>)
        requires
            self.wf(),
        ensures
            r@ == self.tick_actions(self.last_finalized()),
            actions_wf(r@),
    {
        &self.slots[self.last_finalized_tick % RING_SLOT_COUNT].actions
    }

    /// Checks that `tick`'s slot is still open for writing.
    fn check_open(&self, tick: usize) -> (r: Result<(), TickQueueError>)
        requires
            self.wf(),
        ensures
            r is Ok <==> {
                &&& self.current() < tick
                &&& tick < self.current() + RING_SLOT_COUNT
                &&& self.tick_state(tick as int) == QueueSlotState::Pending
            },
            r is Ok ==> self.last_finalized() < tick,
    {
        if tick >= self.current_tick + RING_SLOT_COUNT {
            Err(TickQueueError::RingOverflow)
        } else if tick <= self.current_tick {
            Err(TickQueueError::PastTick)
        } else if self.slots[tick % RING_SLOT_COUNT].is_finalized() {
            Err(TickQueueError::AlreadyFinalized)
        } else {
            Ok(())
        }
    }

    /// Appends one action to the still-open slot of `tick`.  Fails on
    /// a past, finalized or out-of-ring tick, leaving the ring
    /// unchanged.
    pub fn enqueue_action(&mut self, action: Action, tick: usize) -> (r: Result<
        (),
        TickQueueError,
    >)
        requires
            old(self).wf(),
            action.wf(),
        ensures
            final(self).wf(),
            r is Ok <==> {
                &&& old(self).current() < tick
                &&& tick < old(self).current() + RING_SLOT_COUNT
                &&& old(self).tick_state(tick as int) == QueueSlotState::Pending
            },
            r is Err ==> *final(self) == *old(self),
            r is Ok ==> {
                &&& final(self).current() == old(self).current()
                &&& final(self).last_finalized() == old(self).last_finalized()
                &&& final(self).tick_actions(tick as int) == old(self).tick_actions(
                    tick as int,
                ).push(action)
                &&& forall|u: int|
                    u != tick ==> #[trigger] final(self).tick_actions(u) == old(self).tick_actions(
                        u,
                    )
                &&& forall|u: int| #[trigger] final(self).tick_state(u) == old(self).tick_state(u)
                &&& (old(self).gapless() ==> final(self).gapless())
            },
    {
        match self.check_open(tick) {
            Err(e) => Err(e),
            Ok(()) => {
                let idx: usize = tick % RING_SLOT_COUNT;
                let mut slot = QueueSlot::empty();
                self.slots.set_and_swap(idx, &mut slot);
                slot.actions.push(action);
                self.slots.set(idx, slot);
                proof {
                    let oldq = *old(self);
                    let cur = *self;
                    let t = tick as int;
                    let c0 = oldq.current();
                    assert forall|u: int|
                        c0 <= u < c0 + RING_SLOT_COUNT && u != t implies cur.cell(u) == oldq.cell(
                        u,
                    ) by {
                        ring_cell_distinct(u, t);
                    }
                    assert(cur.cell(t).state == oldq.cell(t).state);
                    assert(cur.cell(t).actions@ == oldq.cell(t).actions@.push(action));
                    assert(cur.wf());
                    assert forall|u: int|
                        u != t implies #[trigger] cur.tick_actions(u) == oldq.tick_actions(u) by {
                        if c0 <= u < c0 + RING_SLOT_COUNT {
                            ring_cell_distinct(u, t);
                        }
                    }
                    assert forall|u: int| #[trigger] cur.tick_state(u) == oldq.tick_state(u) by {
                        if c0 <= u < c0 + RING_SLOT_COUNT && u != t {
                            ring_cell_distinct(u, t);
                        }
                    }
                }
                Ok(())
            },
        }
    }

    /// Marks `tick`'s slot finalized and extends the contiguous
    /// finalized prefix as far as it now reaches (never past the end
    /// of the ring window).
    pub fn finalize_tick(&mut self, tick: usize) -> (r: Result<(), TickQueueError>)
        requires
            old(self).wf(),
        ensures
            final(self).wf(),
            r is Ok <==> {
                &&& old(self).current() < tick
                &&& tick < old(self).current() + RING_SLOT_COUNT
                &&& old(self).tick_state(tick as int) == QueueSlotState::Pending
            },
            r is Err ==> *final(self) == *old(self),
            r is Ok ==> {
                &&& final(self).current() == old(self).current()
                &&& final(self).tick_state(tick as int) == QueueSlotState::Finalized
                &&& forall|u: int|
                    u != tick ==> #[trigger] final(self).tick_state(u) == old(self).tick_state(u)
                &&& forall|u: int|
                    #[trigger] final(self).tick_actions(u) == old(self).tick_actions(u)
                &&& final(self).last_finalized() >= old(self).last_finalized()
                &&& (tick != old(self).last_finalized() + 1 ==> final(self).last_finalized()
                    == old(self).last_finalized())
                &&& (old(self).gapless() && tick == old(self).last_finalized() + 1 ==> {
                    &&& final(self).last_finalized() == tick
                    &&& final(self).gapless()
                })
            },
    {
        match self.check_open(tick) {
            Err(e) => {
                return Err(e);
            },
            Ok(()) => {},
        }
        let idx: usize = tick % RING_SLOT_COUNT;
        let mut slot = QueueSlot::empty();
        self.slots.set_and_swap(idx, &mut slot);
        slot.state = QueueSlotState::Finalized;
        self.slots.set(idx, slot);
        let ghost mid = *self;
        proof {
            let oldq = *old(self);
            let t = tick as int;
            let c0 = oldq.current();
            assert forall|u: int|
                c0 <= u < c0 + RING_SLOT_COUNT && u != t implies mid.cell(u) == oldq.cell(u) by {
                ring_cell_distinct(u, t);
            }
            assert(mid.cell(t).state == QueueSlotState::Finalized);
            assert(mid.cell(t).actions == oldq.cell(t).actions);
        }
        while self.last_finalized_tick + 1 < self.current_tick + RING_SLOT_COUNT
            && self.is_prefix_extension_finalized()
            invariant
                self.slots@ == mid.slots@,
                self.slots@.len() == RING_SLOT_COUNT,
                self.current_tick == mid.current_tick,
                mid.current() + 2 * RING_SLOT_COUNT <= usize::MAX,
                mid.current() <= self.last_finalized() < mid.current() + RING_SLOT_COUNT,
                mid.last_finalized() <= self.last_finalized(),
                forall|u: int|
                    self.current() <= u <= self.last_finalized() ==> (#[trigger] mid.cell(
                        u,
                    )).state == QueueSlotState::Finalized,
            decreases mid.current() + RING_SLOT_COUNT - self.last_finalized(),
        {
            proof {
                assert(self.cell(self.last_finalized() + 1) == mid.cell(
                    self.last_finalized() + 1,
                ));
            }
            self.last_finalized_tick = self.last_finalized_tick + 1;
        }
        proof {
            let oldq = *old(self);
            let cur = *self;
            let t = tick as int;
            let c0 = oldq.current();
            let lft2 = cur.last_finalized();
            assert forall|u: int| #![trigger cur.cell(u)] cur.cell(u) == mid.cell(u) by {}
            assert forall|u: int|
                c0 <= u < c0 + RING_SLOT_COUNT && u != t implies cur.cell(u) == oldq.cell(u) by {
                ring_cell_distinct(u, t);
            }
            if lft2 + 1 < c0 + RING_SLOT_COUNT {
                assert(cur.cell(lft2 + 1).state != QueueSlotState::Finalized);
                assert(t != lft2 + 1);
                if lft2 + 1 != t {
                    assert(cur.cell(lft2 + 1) == oldq.cell(lft2 + 1)) by {
                        ring_cell_distinct(lft2 + 1, t);
                    }
                }
                assert(cur.cell(lft2 + 1).state == QueueSlotState::Pending);
            }
            assert(cur.wf());
            assert forall|u: int|
                u != t implies #[trigger] cur.tick_state(u) == oldq.tick_state(u) by {
                if c0 <= u < c0 + RING_SLOT_COUNT {
                    ring_cell_distinct(u, t);
                }
            }
            assert forall|u: int| #[trigger] cur.tick_actions(u) == oldq.tick_actions(u) by {
                if c0 <= u < c0 + RING_SLOT_COUNT && u != t {
                    ring_cell_distinct(u, t);
                }
            }
            if tick != oldq.last_finalized() + 1 {
                assert(mid.cell(oldq.last_finalized() + 1).state != QueueSlotState::Finalized)
                    by {
                    if oldq.last_finalized() + 1 < c0 + RING_SLOT_COUNT {
                        ring_cell_distinct(oldq.last_finalized() + 1, t);
                    }
                }
            }
            if oldq.gapless() && tick == oldq.last_finalized() + 1 {
                assert(cur.last_finalized() == t) by {
                    if t + 1 < c0 + RING_SLOT_COUNT {
                        assert(oldq.tick_state(t + 1) != QueueSlotState::Finalized);
                        assert(mid.cell(t + 1).state != QueueSlotState::Finalized) by {
                            ring_cell_distinct(t + 1, t);
                        }
                    }
                }
                assert forall|u: int|
                    u > cur.last_finalized() implies #[trigger] cur.tick_state(u)
                        != QueueSlotState::Finalized by {
                    assert(cur.tick_state(u) == oldq.tick_state(u));
                }
            }
        }
        Ok(())
    }

    /// Whether the slot one past the contiguous finalized prefix is
    /// itself finalized.
    fn is_prefix_extension_finalized(&self) -> (r: bool)
        requires
            self.slots@.len() == RING_SLOT_COUNT,
            self.last_finalized() + 1 <= usize::MAX,
        ensures
            r == (self.cell(self.last_finalized() + 1).state == QueueSlotState::Finalized),
    {
        self.slots[(self.last_finalized_tick + 1) % RING_SLOT_COUNT].is_finalized()
    }

    /// Appends actions to `tick`'s slot and finalizes it, atomically:
    /// on any failure the ring is unchanged and the actions are
    /// dropped.
    pub fn finalize_tick_with_actions(&mut self, tick: usize, actions: Vec<Action>) -> (r: Result<
        (),
        TickQueueError,
    >)
        requires
            old(self).wf(),
            actions_wf(actions@),
        ensures
            final(self).wf(),
            r is Ok <==> {
                &&& old(self).current() < tick
                &&& tick < old(self).current() + RING_SLOT_COUNT
                &&& old(self).tick_state(tick as int) == QueueSlotState::Pending
            },
            r is Err ==> *final(self) == *old(self),
            r is Ok ==> {
                &&& final(self).current() == old(self).current()
                &&& final(self).tick_state(tick as int) == QueueSlotState::Finalized
                &&& final(self).tick_actions(tick as int) == old(self).tick_actions(tick as int)
                    + actions@
                &&& forall|u: int|
                    u != tick ==> #[trigger] final(self).tick_actions(u) == old(self).tick_actions(
                        u,
                    )
                &&& final(self).last_finalized() >= old(self).last_finalized()
                &&& (old(self).gapless() && tick == old(self).last_finalized() + 1 ==> {
                    &&& final(self).last_finalized() == tick
                    &&& final(self).gapless()
                })
            },
    {
        match self.check_open(tick) {
            Err(e) => {
                return Err(e);
            },
            Ok(()) => {},
        }
        let ghost before = *self;
        let mut incoming = actions;
        let mut i: usize = 0;
        while i < incoming.len()
            invariant
                0 <= i <= incoming@.len(),
                incoming@ == actions@,
                actions_wf(actions@),
                self.wf(),
                *old(self) == before,
                self.current() == before.current(),
                self.last_finalized() == before.last_finalized(),
                before.current() < tick < before.current() + RING_SLOT_COUNT,
                self.tick_state(tick as int) == QueueSlotState::Pending,
                self.tick_actions(tick as int) == before.tick_actions(tick as int)
                    + actions@.take(i as int),
                forall|u: int|
                    u != tick ==> #[trigger] self.tick_actions(u) == before.tick_actions(u),
                forall|u: int| #[trigger] self.tick_state(u) == before.tick_state(u),
                before.gapless() ==> self.gapless(),
            decreases incoming@.len() - i,
        {
            proof {
                assert(before.tick_actions(tick as int) + actions@.take(i as int).push(
                    actions@[i as int],
                ) =~= (before.tick_actions(tick as int) + actions@.take(i as int)).push(
                    actions@[i as int],
                ));
                assert(actions@.take(i + 1) =~= actions@.take(i as int).push(actions@[i as int]));
            }
            let e = self.enqueue_action(incoming[i], tick);
            proof {
                assert(e is Ok);
            }
            i = i + 1;
        }
        proof {
            assert(actions@.take(actions@.len() as int) =~= actions@);
        }
        let r = self.finalize_tick(tick);
        proof {
            assert(r is Ok);
        }
        r
    }

    /// Consumes the current tick: its slot is cleared for reuse one
    /// ring turn later and the ring moves to the next tick.  Fails
    /// when the next tick is not yet finalized.
    pub fn advance(&mut self) -> (r: Result<(), TickQueueError>)
        requires
            old(self).wf(),
            // Machine limit: the tick counter must stay addressable a
            // full ring turn ahead.
            old(self).current() + 1 + 2 * RING_SLOT_COUNT <= usize::MAX,
        ensures
            final(self).wf(),
            r is Ok <==> old(self).current() < old(self).last_finalized(),
            r is Err ==> *final(self) == *old(self) && r == Err::<(), TickQueueError>(
                TickQueueError::NotFinalized,
            ),
            r is Ok ==> {
                &&& final(self).current() == old(self).current() + 1
                &&& final(self).last_finalized() == old(self).last_finalized()
                &&& forall|u: int|
                    u > old(self).current() ==> #[trigger] final(self).tick_actions(u) == old(
                        self,
                    ).tick_actions(u)
                &&& forall|u: int|
                    u > old(self).current() ==> #[trigger] final(self).tick_state(u) == old(
                        self,
                    ).tick_state(u)
                &&& (old(self).gapless() ==> final(self).gapless())
            },
    {
        if self.current_tick >= self.last_finalized_tick {
            return Err(TickQueueError::NotFinalized);
        }
        let idx: usize = self.current_tick % RING_SLOT_COUNT;
        self.slots.set(idx, QueueSlot::empty());
        self.current_tick = self.current_tick + 1;
        proof {
            let oldq = *old(self);
            let cur = *self;
            let c0 = oldq.current();
            assert forall|u: int|
                c0 < u < c0 + RING_SLOT_COUNT implies cur.cell(u) == oldq.cell(u) by {
                ring_cell_distinct(u, c0);
            }
            assert(cur.cell(c0).state == QueueSlotState::Pending);
            assert(cur.cell(c0).actions@ == Seq::<Action>::empty());
            // The freed cell belongs to the tick one ring turn later.
            vstd::arithmetic::div_mod::lemma_mod_multiples_vanish(-1, c0 + RING_SLOT_COUNT, RING_SLOT_COUNT as int);
            assert(cur.cell(c0 + RING_SLOT_COUNT) == cur.cell(c0));
            assert forall|t: int|
                cur.current() <= t <= cur.last_finalized() implies (#[trigger] cur.cell(t)).state
                    == QueueSlotState::Finalized by {
                ring_cell_distinct(t, c0);
            }
            assert(cur.last_finalized() + 1 < cur.current() + RING_SLOT_COUNT ==> cur.cell(
                cur.last_finalized() + 1,
            ).state == QueueSlotState::Pending) by {
                let w = cur.last_finalized() + 1;
                if w < cur.current() + RING_SLOT_COUNT {
                    if w < c0 + RING_SLOT_COUNT {
                        ring_cell_distinct(w, c0);
                    }
                }
            }
            assert forall|t: int|
                cur.last_finalized() < t < cur.current() + RING_SLOT_COUNT implies (
            #[trigger] cur.cell(t)).state != QueueSlotState::Simulated by {
                if t < c0 + RING_SLOT_COUNT {
                    ring_cell_distinct(t, c0);
                }
            }
            assert forall|t: int|
                cur.current() <= t < cur.current() + RING_SLOT_COUNT implies actions_wf(
                (#[trigger] cur.cell(t)).actions@,
            ) by {
                if t < c0 + RING_SLOT_COUNT {
                    ring_cell_distinct(t, c0);
                }
            }
            assert(cur.wf());
            assert forall|u: int|
                u > c0 implies #[trigger] cur.tick_actions(u) == oldq.tick_actions(u) by {
                if c0 < u < c0 + RING_SLOT_COUNT {
                    ring_cell_distinct(u, c0);
                } else if u == c0 + RING_SLOT_COUNT {
                    assert(cur.tick_actions(u) == cur.cell(c0).actions@);
                }
            }
            assert forall|u: int|
                u > c0 implies #[trigger] cur.tick_state(u) == oldq.tick_state(u) by {
                if c0 < u < c0 + RING_SLOT_COUNT {
                    ring_cell_distinct(u, c0);
                } else if u == c0 + RING_SLOT_COUNT {
                    assert(cur.tick_state(u) == cur.cell(c0).state);
                    assert(oldq.tick_state(u) == QueueSlotState::Pending);
                }
            }
        }
        Ok(())
    }

    /// Whether the tick after the current one is finalized, so that
    /// the driver may consume another tick.
    pub fn is_next_tick_finalized(&self) -> (r: bool)
        requires
            self.wf(),
        ensures
            r == (self.current() < self.last_finalized()),
    {
        proof {
            if self.current() < self.last_finalized() {
                assert(self.cell(self.current() + 1).state == QueueSlotState::Finalized);
            } else {
                assert(self.cell(self.current() + 1).state == QueueSlotState::Pending);
            }
        }
        self.slots[(self.current_tick + 1) % RING_SLOT_COUNT].is_finalized()
    }

    /// The first tick whose action list is still open.
    pub fn next_unfinalized_tick(&self) -> (r: usize)
        requires
            self.wf(),
        ensures
            r == self.last_finalized() + 1,
            self.tick_state(r as int) != QueueSlotState::Finalized,
    {
        proof {
            let lft = self.last_finalized();
            let c0 = self.current();
            if lft + 1 == c0 + RING_SLOT_COUNT {
                vstd::arithmetic::div_mod::lemma_mod_multiples_vanish(
                    1,
                    c0,
                    RING_SLOT_COUNT as int,
                );
                assert(self.cell(lft + 1) == self.cell(c0));
            }
        }
        self.last_finalized_tick + 1
    }

    /// Builds the `FinalizedTick` messages that bring a peer from
    /// `from_tick` up to the current finalized horizon, in tick order,
    /// and reports that horizon.
    pub fn make_tick_finalization_messages(&self, from_tick: usize) -> (r: (
        usize,
        Vec<NetworkMessage>,
    ))
        requires
            self.wf(),
            from_tick > self.current(),
        ensures
            r.0 == self.last_finalized(),
            from_tick > self.last_finalized() ==> r.1@.len() == 0,
            from_tick <= self.last_finalized() ==> r.1@.len() == self.last_finalized() - from_tick
                + 1,
            forall|i: int|
                0 <= i < r.1@.len() ==> (#[trigger] r.1@[i] matches NetworkMessage::FinalizedTick {
                    tick,
                    actions,
                } && tick == from_tick + i && actions@ == self.tick_actions(from_tick + i)),
            crate::messages::messages_wf(r.1@),
    {
        let mut messages: Vec<NetworkMessage> = Vec::new();
        let mut t: usize = from_tick;
        if t > self.last_finalized_tick {
            return (self.last_finalized_tick, messages);
        }
        while t <= self.last_finalized_tick
            invariant
                self.wf(),
                self.current() < from_tick <= t <= self.last_finalized() + 1,
                messages@.len() == t - from_tick,
                forall|i: int|
                    0 <= i < messages@.len() ==> (#[trigger] messages@[i]
                        matches NetworkMessage::FinalizedTick { tick, actions } && tick == from_tick
                        + i && actions@ == self.tick_actions(from_tick + i)),
                crate::messages::messages_wf(messages@),
            decreases self.last_finalized() + 1 - t,
        {
            let actions = crate::actions::clone_actions(&self.slots[t % RING_SLOT_COUNT].actions);
            proof {
                assert(self.tick_actions(t as int) == self.cell(t as int).actions@);
                assert(actions_wf(actions@));
                assert(actions@.len() <= usize::MAX);
            }
            messages.push(NetworkMessage::FinalizedTick { tick: t, actions });
            t = t + 1;
        }
        (self.last_finalized_tick, messages)
    }
}

/// Ticks that lie within one ring turn of each other occupy distinct
/// cells.
proof fn ring_cell_distinct(t1: int, t2: int)
    requires
        0 <= t1,
        0 <= t2,
        t1 != t2,
        -(RING_SLOT_COUNT as int) < t1 - t2 < RING_SLOT_COUNT as int,
    ensures
        t1 % (RING_SLOT_COUNT as int) != t2 % (RING_SLOT_COUNT as int),
{
    let n = RING_SLOT_COUNT as int;
    vstd::arithmetic::div_mod::lemma_fundamental_div_mod(t1, n);
    vstd::arithmetic::div_mod::lemma_fundamental_div_mod(t2, n);
    if t1 % n == t2 % n {
        let d1 = t1 / n;
        let d2 = t2 / n;
        assert(t1 - t2 == n * d1 - n * d2);
        assert(n * d1 - n * d2 == n * (d1 - d2)) by (nonlinear_arith);
        assert(d1 != d2);
        assert(d1 - d2 >= 1 ==> n * (d1 - d2) >= n) by (nonlinear_arith)
            requires
                n >= 1,
        ;
        assert(d1 - d2 <= -1 ==> n * (d1 - d2) <= -n) by (nonlinear_arith)
            requires
                n >= 1,
        ;
        assert(false);
    }
}

/// A tick below `RING_SLOT_COUNT` is its own cell index.
proof fn ring_mod_window(t: int)
    requires
        0 <= t < RING_SLOT_COUNT as int,
    ensures
        t % (RING_SLOT_COUNT as int) == t,
{
    vstd::arithmetic::div_mod::lemma_small_mod(t as nat, RING_SLOT_COUNT as nat);
}

/// The degenerate local scheduler: with no peers, every tick is
/// finalized immediately from the local action queue.
pub struct ConnectionLoopback {}

impl ConnectionLoopback {
    /// There is no connection state to keep.
    pub fn new() -> (r: ConnectionLoopback)
        ensures
            true,
    {
        ConnectionLoopback {}
    }

    /// Schedules an action a fixed lead of [`LOOPBACK_ACTION_LEAD`]
    /// ticks ahead, leaving room for the frames in between.
    pub fn add_action(&self, queue: &mut TickQueue, action: Action) -> (r: Result<
        (),
        TickQueueError,
    >)
        requires
            old(queue).wf(),
            action.wf(),
        ensures
            final(queue).wf(),
            r is Ok ==> final(queue).tick_actions(old(queue).current() + LOOPBACK_ACTION_LEAD)
                == old(queue).tick_actions(old(queue).current() + LOOPBACK_ACTION_LEAD).push(
                action,
            ),
            r is Err ==> *final(queue) == *old(queue),
    {
        let tick: usize = queue.current_tick + LOOPBACK_ACTION_LEAD;
        queue.enqueue_action(action, tick)
    }

    /// Finalizes the tick right after the current one, so that the
    /// driver may consume it.
    pub fn synchronize(&self, queue: &mut TickQueue) -> (r: Result<(), TickQueueError>)
        requires
            old(queue).wf(),
        ensures
            final(queue).wf(),
            r is Ok ==> final(queue).tick_state(old(queue).current() + 1)
                == QueueSlotState::Finalized,
            r is Err ==> *final(queue) == *old(queue),
    {
        let tick: usize = queue.current_tick + 1;
        queue.finalize_tick(tick)
    }
}

/// How far ahead of the consumed tick the loopback scheduler places
/// new actions.
pub const LOOPBACK_ACTION_LEAD: usize = 50;

} // verus!
