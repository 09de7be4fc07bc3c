use lockstep_core::actions::{Action, Direction, PlayerAction, PlayerId, ResActionQueue};
use lockstep_core::fixed_point::FixedPoint;
use lockstep_core::input::{map_input_event, sys_input, InputEvent};
use lockstep_core::world::{Entity, MovementReceiver, Position, Velocity, World};

fn controlled_entity(pid: usize) -> Entity {
    Entity {
        position: Position::new(FixedPoint::from_int(0), FixedPoint::from_int(0)),
        velocity: Velocity::new(FixedPoint::from_int(0), FixedPoint::from_int(0)),
        color: lockstep_core::world::Color::new(1, 2, 3, 255),
        gravity: false,
        emitter: false,
        movement: Some(MovementReceiver::new()),
        control: Some(PlayerId(pid)),
    }
}

#[test]
fn snapshot_round_trip_preserves_the_world() {
    // load_world(serialize_world(w)) reproduces w, so the checksum of
    // the loaded world equals the original's.
    let w = World::init_demo();
    let bytes = w.serialize_world();
    let loaded = World::load_world(&bytes).expect("snapshot should load");
    assert_eq!(loaded.entities.as_slice(), w.entities.as_slice());
    assert_eq!(loaded.hash_world(), w.hash_world());
}

#[test]
fn snapshot_rejects_corruption() {
    let w = World::init_demo();
    let mut bytes = w.serialize_world();
    bytes.pop();
    assert!(World::load_world(&bytes).is_none());
    let mut extended = w.serialize_world();
    extended.push(0);
    assert!(World::load_world(&extended).is_none());
}

#[test]
fn movement_intent_drives_velocity_and_position() {
    let mut w = World { entities: vec![controlled_entity(0)] };
    let start = PlayerAction::StartMoving { dir: Direction::right() }.for_player(PlayerId(0));
    w.step(&vec![start]);
    // Velocity becomes 5 units/tick to the right, and the position has
    // already integrated one step.
    assert_eq!(w.entities[0].velocity.vx.raw, 5 * 4096);
    assert_eq!(w.entities[0].velocity.vy.raw, 0);
    assert_eq!(w.entities[0].position.x.raw, 5 * 4096);

    let stop = PlayerAction::StopMoving { dir: Direction::right() }.for_player(PlayerId(0));
    w.step(&vec![stop]);
    assert_eq!(w.entities[0].velocity.vx.raw, 0);
    assert_eq!(w.entities[0].position.x.raw, 5 * 4096);
}

#[test]
fn movement_ignores_other_players() {
    let mut w = World { entities: vec![controlled_entity(0)] };
    let start = PlayerAction::StartMoving { dir: Direction::right() }.for_player(PlayerId(1));
    w.step(&vec![start]);
    assert_eq!(w.entities[0].velocity.vx.raw, 0);
    assert_eq!(w.entities[0].position.x.raw, 0);
}

#[test]
fn fire_spawns_eight_particles() {
    let mut w = World { entities: vec![controlled_entity(0)] };
    let fire = PlayerAction::Fire.for_player(PlayerId(0));
    w.step(&vec![fire]);
    assert_eq!(w.entities.len(), 9);
    for e in &w.entities[1..] {
        assert!(e.gravity);
        assert!(e.movement.is_none());
    }
}

#[test]
fn spawn_player_adds_a_controllable_emitter() {
    let mut w = World { entities: vec![] };
    w.step(&vec![Action::SpawnPlayer { player_id: PlayerId(4) }]);
    assert_eq!(w.entities.len(), 1);
    assert_eq!(w.entities[0].control, Some(PlayerId(4)));
    assert!(w.entities[0].emitter);
}

#[test]
fn identical_steps_give_identical_hashes() {
    let mut a = World::init_demo();
    let mut b = World::init_demo();
    let actions = vec![Action::SpawnPlayer { player_id: PlayerId(0) }];
    for _ in 0..25 {
        a.step(&actions);
        b.step(&actions);
    }
    assert_eq!(a.hash_world(), b.hash_world());
    assert_eq!(a.entities.as_slice(), b.entities.as_slice());
}

#[test]
fn key_mapping_covers_movement_and_fire() {
    let down = |k: &str| InputEvent::KeyDown { key: k.to_string() };
    let up = |k: &str| InputEvent::KeyUp { key: k.to_string() };
    assert_eq!(
        map_input_event(&down("w")),
        Some(PlayerAction::StartMoving { dir: Direction::up() })
    );
    assert_eq!(
        map_input_event(&down("a")),
        Some(PlayerAction::StartMoving { dir: Direction::left() })
    );
    assert_eq!(
        map_input_event(&down("s")),
        Some(PlayerAction::StartMoving { dir: Direction::down() })
    );
    assert_eq!(
        map_input_event(&down("d")),
        Some(PlayerAction::StartMoving { dir: Direction::right() })
    );
    assert_eq!(map_input_event(&down(" ")), Some(PlayerAction::Fire));
    assert_eq!(map_input_event(&down("x")), None);
    assert_eq!(
        map_input_event(&up("w")),
        Some(PlayerAction::StopMoving { dir: Direction::up() })
    );
    assert_eq!(map_input_event(&up(" ")), None);
    assert_eq!(map_input_event(&InputEvent::MouseDown { button: 0 }), None);
}

#[test]
fn input_events_queue_in_order() {
    let mut queue = ResActionQueue::new();
    let events = vec![
        InputEvent::KeyDown { key: "w".to_string() },
        InputEvent::MouseMove { x: 3, y: 4 },
        InputEvent::KeyDown { key: " ".to_string() },
        InputEvent::KeyUp { key: "w".to_string() },
    ];
    sys_input(events, &mut queue, PlayerId(7));
    let queued = queue.take_queue();
    assert_eq!(
        queued.as_slice(),
        [
            PlayerAction::StartMoving { dir: Direction::up() }.for_player(PlayerId(7)),
            PlayerAction::Fire.for_player(PlayerId(7)),
            PlayerAction::StopMoving { dir: Direction::up() }.for_player(PlayerId(7)),
        ]
    );
    assert_eq!(queue.take_queue().len(), 0);
}

#[test]
fn direction_set_operations() {
    let lr = Direction::left().or(Direction::right());
    assert!(lr.contains(Direction::left()));
    assert!(lr.contains(Direction::right()));
    assert!(!lr.contains(Direction::up()));
    let l = lr.and(Direction::right().not());
    assert_eq!(l, Direction::left());
    assert_eq!(Direction::none().bits, 0);
}
