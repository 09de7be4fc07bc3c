use lockstep_core::actions::{Action, Direction, PlayerAction, PlayerId};
use lockstep_core::ring_queue::{ConnectionLoopback, TickQueue, LOOPBACK_ACTION_LEAD};

fn jump() -> Action {
    PlayerAction::Jump.for_player(PlayerId(0))
}

fn fire() -> Action {
    PlayerAction::Fire.for_player(PlayerId(0))
}

fn start_right() -> Action {
    PlayerAction::StartMoving { dir: Direction::right() }.for_player(PlayerId(0))
}

#[test]
fn tick_queue_basic_test() {
    let mut queue = TickQueue::new();

    assert_eq!(queue.current_tick, 0, "Tick queue should start at tick 0");

    assert_eq!(
        queue.current_tick_actions().len(),
        0,
        "Tick queue should start with no actions"
    );

    // Queue up an action in the next tick
    queue.finalize_tick_with_actions(1, vec![jump()]).unwrap();

    // Queue up a couple actions in the subsequent tick
    queue
        .finalize_tick_with_actions(2, vec![fire(), start_right()])
        .unwrap();

    // And finalize one last empty tick
    queue.finalize_tick(3).unwrap();

    // Advance and check that the action is available
    queue.advance().unwrap();
    let current_actions = queue.current_tick_actions();

    assert_eq!(
        current_actions.len(),
        1,
        "Tick queue should have 1 action after advancing to tick 1"
    );

    assert_eq!(
        current_actions[0],
        jump(),
        "Tick queue should have a jump action after advancing to tick 1"
    );

    // Advance to the next tick
    queue.advance().unwrap();
    let current_actions = queue.current_tick_actions();

    assert_eq!(
        current_actions.len(),
        2,
        "Tick queue should have 2 actions after advancing to tick 2"
    );

    assert_eq!(
        current_actions[0],
        fire(),
        "Tick queue should have a fire action after advancing to tick 2"
    );

    assert_eq!(
        current_actions[1],
        start_right(),
        "Tick queue should have a start moving action after advancing to tick 2"
    );

    // Advance to the next tick (should be empty)
    queue.advance().unwrap();
    let current_actions = queue.current_tick_actions();

    assert_eq!(
        current_actions.len(),
        0,
        "Tick queue should have no actions after advancing to tick 3"
    );
}

#[test]
fn loopback_schedules_ahead_and_finalizes() {
    let loopback = ConnectionLoopback::new();
    let mut queue = TickQueue::new();
    loopback.add_action(&mut queue, jump()).unwrap();
    // Finalize and consume one tick.
    loopback.synchronize(&mut queue).unwrap();
    assert_eq!(queue.get_last_finalized_tick(), 1);
    queue.advance().unwrap();
    assert_eq!(queue.current_tick, 1);
    // The scheduled action sits a fixed lead ahead.
    for _ in 0..LOOPBACK_ACTION_LEAD - 1 {
        loopback.synchronize(&mut queue).unwrap();
        queue.advance().unwrap();
    }
    assert_eq!(queue.current_tick, LOOPBACK_ACTION_LEAD);
    assert_eq!(queue.current_tick_actions().as_slice(), [jump()]);
}

#[test]
fn ring_rebase_after_join() {
    let mut queue = TickQueue::new();
    queue.finalize_tick_with_actions(1, vec![jump()]).unwrap();
    queue.set_last_finalized_tick(10);
    assert_eq!(queue.current_tick, 10);
    assert_eq!(queue.get_last_finalized_tick(), 10);
    assert_eq!(queue.current_tick_actions().len(), 0);
    assert_eq!(queue.next_unfinalized_tick(), 11);
}

#[test]
fn ring_slot_lifecycle() {
    let mut slot = lockstep_core::ring_queue::QueueSlot::empty();
    assert!(slot.is_pending());
    assert!(!slot.is_finalized());
    slot.state = lockstep_core::tick_queue::QueueSlotState::Finalized;
    assert!(slot.is_finalized());
    slot.reset();
    assert!(slot.is_pending());
    assert!(slot.actions.is_empty());
}
