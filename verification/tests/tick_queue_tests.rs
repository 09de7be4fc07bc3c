use lockstep_core::actions::{Action, Direction, PlayerAction, PlayerId};
use lockstep_core::messages::NetworkMessage;
use lockstep_core::tick_queue::{ResTickQueue, TickQueueError, SLOT_COUNT};

fn jump() -> Action {
    PlayerAction::Jump.for_player(PlayerId(0))
}

fn fire() -> Action {
    PlayerAction::Fire.for_player(PlayerId(0))
}

fn start_right() -> Action {
    PlayerAction::StartMoving { dir: Direction::right() }.for_player(PlayerId(0))
}

#[test]
fn basic_test() {
    let mut queue = ResTickQueue::new();

    assert_eq!(
        queue.get_last_simulated_tick(),
        0,
        "Tick queue should start at tick 0"
    );

    assert_eq!(
        queue.current_tick_actions().len(),
        0,
        "Tick queue should start with no actions"
    );

    // Queue up an action in the next tick
    queue.finalize_tick_with_actions(1, vec![jump()]).unwrap();

    // Queue up a couple actions in the subsequent tick
    queue
        .finalize_tick_with_actions(2, vec![fire(), start_right()])
        .unwrap();

    // And finalize one last empty tick
    queue.finalize_tick(3).unwrap();

    // Check that the action is available, then advance
    let current_actions = queue.current_tick_actions();

    assert_eq!(
        current_actions.len(),
        1,
        "Tick queue should have 1 action after advancing to tick 1"
    );

    assert_eq!(
        current_actions[0],
        jump(),
        "Tick queue should have a jump action after advancing to tick 1"
    );

    queue.advance(0).unwrap();
    let current_actions = queue.current_tick_actions();

    assert_eq!(
        current_actions.len(),
        2,
        "Tick queue should have 2 actions after advancing to tick 2"
    );

    assert_eq!(
        current_actions[0],
        fire(),
        "Tick queue should have a fire action after advancing to tick 2"
    );

    assert_eq!(
        current_actions[1],
        start_right(),
        "Tick queue should have a start moving action after advancing to tick 2"
    );

    queue.advance(0).unwrap();
    let current_actions = queue.current_tick_actions();

    assert_eq!(
        current_actions.len(),
        0,
        "Tick queue should have no actions after advancing to tick 3"
    );

    queue.advance(0).unwrap();
    assert_eq!(queue.get_last_simulated_tick(), 3);
}

#[test]
fn enqueue_at_finalized_tick_fails() {
    let mut queue = ResTickQueue::new();
    queue.finalize_tick(1).unwrap();
    queue.finalize_tick(2).unwrap();
    // The last finalized tick is immutable.
    assert_eq!(queue.get_last_finalized_tick(), 2);
    assert_eq!(
        queue.enqueue_action(jump(), 2),
        Err(TickQueueError::AlreadyFinalized)
    );
    // The first still-mutable tick accepts actions.
    assert_eq!(queue.enqueue_action_immediately(jump()), Ok(()));
}

#[test]
fn finalize_finalized_tick_fails() {
    let mut queue = ResTickQueue::new();
    queue.finalize_tick(1).unwrap();
    assert_eq!(queue.finalize_tick(1), Err(TickQueueError::AlreadyFinalized));
}

#[test]
fn advance_unfinalized_fails() {
    let mut queue = ResTickQueue::new();
    assert!(!queue.is_next_tick_finalized());
    assert_eq!(queue.advance(7), Err(TickQueueError::NotFinalized));
    queue.finalize_tick(1).unwrap();
    assert!(queue.is_next_tick_finalized());
    assert_eq!(queue.advance(7), Ok(()));
}

#[test]
fn ring_discipline() {
    // Fill the ring: ticks 1..=127 finalized while nothing simulates.
    let mut queue = ResTickQueue::new();
    for t in 1..SLOT_COUNT {
        queue.finalize_tick(t).unwrap();
    }
    assert_eq!(queue.get_last_finalized_tick(), SLOT_COUNT - 1);

    // Tick 128 would need slot 0, which still belongs to tick 0.
    assert_eq!(
        queue.finalize_tick(SLOT_COUNT),
        Err(TickQueueError::RingOverflow)
    );

    // Releasing nothing changes nothing.
    queue.reset_through(0);
    assert_eq!(
        queue.finalize_tick(SLOT_COUNT),
        Err(TickQueueError::RingOverflow)
    );

    // Simulate up to tick 10, release those slots: slot 0 is now free.
    for t in 1..=10 {
        queue.advance(t as u64).unwrap();
    }
    queue.reset_through(10);
    assert_eq!(queue.finalize_tick(SLOT_COUNT), Ok(()));
}

#[test]
fn slot_reuse_is_clean() {
    // An action attached to tick 1 must not leak into tick 129, which
    // reuses the same ring slot after a reset.
    let mut queue = ResTickQueue::new();
    queue.finalize_tick_with_actions(1, vec![jump(), fire()]).unwrap();
    queue.advance(1).unwrap();
    for t in 2..=SLOT_COUNT {
        queue.reset_simulated();
        queue.finalize_tick(t).unwrap();
        queue.advance(t as u64).unwrap();
    }
    queue.reset_simulated();
    queue
        .finalize_tick_with_actions(SLOT_COUNT + 1, vec![start_right()])
        .unwrap();
    let actions = queue.current_tick_actions();
    assert_eq!(actions.len(), 1, "no stale actions from the previous occupancy");
    assert_eq!(actions[0], start_right());
}

#[test]
fn past_ticks_are_immutable() {
    let mut queue = ResTickQueue::new();
    queue.finalize_tick(1).unwrap();
    queue.advance(0).unwrap();
    assert_eq!(queue.finalize_tick(1), Err(TickQueueError::PastTick));
    assert_eq!(queue.enqueue_action(jump(), 1), Err(TickQueueError::PastTick));
}

#[test]
fn finalization_messages_cover_the_horizon() {
    let mut queue = ResTickQueue::new();
    queue.finalize_tick_with_actions(1, vec![jump()]).unwrap();
    queue.finalize_tick_with_actions(2, vec![fire()]).unwrap();
    let (lft, msgs) = queue.make_tick_finalization_messages(1);
    assert_eq!(lft, 2);
    assert_eq!(msgs.len(), 2);
    match &msgs[0] {
        NetworkMessage::FinalizedTick { tick, actions } => {
            assert_eq!(*tick, 1);
            assert_eq!(actions.as_slice(), [jump()]);
        }
        other => panic!("unexpected message {:?}", other),
    }
    match &msgs[1] {
        NetworkMessage::FinalizedTick { tick, actions } => {
            assert_eq!(*tick, 2);
            assert_eq!(actions.as_slice(), [fire()]);
        }
        other => panic!("unexpected message {:?}", other),
    }
}

#[test]
fn set_last_simulated_tick_rebases_the_queue() {
    let mut queue = ResTickQueue::new();
    queue.finalize_tick_with_actions(1, vec![jump()]).unwrap();
    queue.set_last_simulated_tick(5);
    assert_eq!(queue.get_last_simulated_tick(), 5);
    assert_eq!(queue.get_last_finalized_tick(), 5);
    assert_eq!(queue.get_next_tick_to_simulate(), 6);
    assert!(!queue.is_next_tick_finalized());
    assert_eq!(queue.next_unfinalized_tick(), 6);
    assert_eq!(queue.current_tick_actions().len(), 0);
}

#[test]
fn advance_records_the_checksum() {
    // After advance(h), the slot of the tick just simulated holds h.
    let mut queue = ResTickQueue::new();
    queue.finalize_tick(1).unwrap();
    queue.finalize_tick(2).unwrap();
    queue.advance(0xDEAD).unwrap();
    queue.advance(0xBEEF).unwrap();
    assert_eq!(queue.get_tick_checksum(1), 0xDEAD);
    assert_eq!(queue.get_tick_checksum(2), 0xBEEF);
}

#[test]
fn slot_lifecycle_never_runs_backwards() {
    let mut slot = lockstep_core::tick_queue::QueueSlot::empty();
    assert!(slot.is_pending());
    assert!(!slot.is_finalized());
    assert!(!slot.is_simulated());
    slot.state = lockstep_core::tick_queue::QueueSlotState::Finalized;
    assert!(slot.is_finalized());
    slot.on_simulated(42);
    assert!(slot.is_simulated());
    assert_eq!(slot.checksum, 42);
    slot.reset();
    assert!(slot.is_pending());
    assert_eq!(slot.checksum, 0);
    assert!(slot.actions.is_empty());
}
