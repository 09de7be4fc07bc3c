//! The simulation world the lockstep core drives.
//!
//! The world is a list of entities with fixed-point position and
//! velocity, an optional movement receiver bound to a player, and
//! gravity roles.  One simulation step applies a tick's action list in
//! order, then integrates movement, then gravity.  Every rule is pure
//! fixed-point arithmetic, so identical inputs give bit-identical
//! worlds on every participant; a stable checksum over the positions
//! detects divergence.  Snapshots use the same byte codec as the wire
//! and are proved lossless.

use crate::actions::{Action, Direction, PlayerAction, PlayerId};
use crate::codec::{
    dec_fixed, dec_u64, enc_fixed, enc_u64, lemma_dec_enc_fixed, lemma_dec_enc_u64,
};
use crate::fixed_point::FixedPoint;
use vstd::prelude::*;

verus! {

/// A place in the plane.
#[derive(Clone, Copy, PartialEq, Eq, Structural, Debug)]
pub struct Position {
    pub x: FixedPoint,
    pub y: FixedPoint,
}

impl Position {
    /// A position from its two coordinates.
    pub fn new(x: FixedPoint, y: FixedPoint) -> (r: Position)
        ensures
            r == (Position { x, y }),
    {
        Position { x, y }
    }
}

/// A velocity in the plane.
#[derive(Clone, Copy, PartialEq, Eq, Structural, Debug)]
pub struct Velocity {
    pub vx: FixedPoint,
    pub vy: FixedPoint,
}

impl Velocity {
    /// A velocity from its two components.
    pub fn new(vx: FixedPoint, vy: FixedPoint) -> (r: Velocity)
        ensures
            r == (Velocity { vx, vy }),
    {
        Velocity { vx, vy }
    }
}

/// An entity's display color.
#[derive(Clone, Copy, PartialEq, Eq, Structural, Debug)]
pub struct Color {
    pub red: u8,
    pub green: u8,
    pub blue: u8,
    pub alpha: u8,
}

impl Color {
    /// A color from its four channels.
    pub fn new(red: u8, green: u8, blue: u8, alpha: u8) -> (r: Color)
        ensures
            r == (Color { red, green, blue, alpha }),
    {
        Color { red, green, blue, alpha }
    }
}

/// Movement speed, in units per tick: 5.
pub const MOVE_SPEED_RAW: i64 = 20480;

/// Receives start/stop movement intents and turns the currently held
/// directions into a velocity.
#[derive(Clone, Copy, PartialEq, Eq, Structural, Debug)]
pub struct MovementReceiver {
    pub direction: Direction,
}

/// The velocity the held direction set stands for: an axis moves at
/// the fixed speed toward the first of its two directions that is
/// held, and stands still otherwise.
pub open spec fn held_velocity(direction: Direction) -> Velocity {
    let vx = if direction.bits & 4 == 4 {
        FixedPoint { raw: -20480i64 }
    } else if direction.bits & 8 == 8 {
        FixedPoint { raw: MOVE_SPEED_RAW }
    } else {
        FixedPoint { raw: 0 }
    };
    let vy = if direction.bits & 2 == 2 {
        FixedPoint { raw: -20480i64 }
    } else if direction.bits & 1 == 1 {
        FixedPoint { raw: MOVE_SPEED_RAW }
    } else {
        FixedPoint { raw: 0 }
    };
    Velocity { vx, vy }
}

impl MovementReceiver {
    /// A receiver holding no direction.
    pub fn new() -> (r: MovementReceiver)
        ensures
            r.direction.bits == 0,
    {
        MovementReceiver { direction: Direction { bits: 0 } }
    }

    /// Writes the velocity the held directions stand for.
    pub fn apply(&self, vel: &mut Velocity)
        ensures
            *final(vel) == held_velocity(self.direction),
    {
        let negative = FixedPoint::from_raw(-MOVE_SPEED_RAW);
        let positive = FixedPoint::from_raw(MOVE_SPEED_RAW);
        let zero = FixedPoint::from_raw(0);
        if self.direction.bits & 4 == 4 {
            vel.vx = negative;
        } else if self.direction.bits & 8 == 8 {
            vel.vx = positive;
        } else {
            vel.vx = zero;
        }
        if self.direction.bits & 2 == 2 {
            vel.vy = negative;
        } else if self.direction.bits & 1 == 1 {
            vel.vy = positive;
        } else {
            vel.vy = zero;
        }
    }
}

/// One simulated entity.
#[derive(Clone, Copy, PartialEq, Eq, Structural, Debug)]
pub struct Entity {
    pub position: Position,
    pub velocity: Velocity,
    pub color: Color,
    /// Pulled by gravity emitters.
    pub gravity: bool,
    /// Pulls every gravity-bound entity.
    pub emitter: bool,
    /// Present on player-controlled entities.
    pub movement: Option<MovementReceiver>,
    /// The player controlling this entity, if any.
    pub control: Option<PlayerId>,
}

impl Entity {
    /// Direction sets held by the entity use only the four direction
    /// bits.
    pub open spec fn wf(self) -> bool {
        match self.movement {
            Some(mr) => mr.direction.wf(),
            None => true,
        }
    }
}

/// Every entity of the sequence is well formed.
pub open spec fn entities_wf(s: Seq<Entity>) -> bool {
    forall|i: int| 0 <= i < s.len() ==> (#[trigger] s[i]).wf()
}

/// Whether an integer fits the raw fixed-point representation.
pub open spec fn in_i64(x: int) -> bool {
    i64::MIN <= x <= i64::MAX
}

/// The position shifted by a raw delta, or unshifted where that would
/// overflow (out-of-range motion saturates to standing still on that
/// axis).
pub open spec fn offset_or(f: FixedPoint, d: int) -> FixedPoint {
    if in_i64(f.raw + d) {
        FixedPoint { raw: (f.raw + d) as i64 }
    } else {
        f
    }
}

/// How one movement intent changes one entity: the intent's player
/// must control the entity and the entity must receive movement; the
/// held direction set is updated and the velocity re-derived from it.
pub open spec fn recv_entity(e: Entity, intent: PlayerAction, pid: PlayerId) -> Entity {
    if e.control == Some(pid) && e.movement is Some {
        let held = e.movement->0.direction;
        match intent {
            PlayerAction::StartMoving { dir } => {
                let nd = Direction { bits: held.bits | dir.bits };
                Entity {
                    movement: Some(MovementReceiver { direction: nd }),
                    velocity: held_velocity(nd),
                    ..e
                }
            },
            PlayerAction::StopMoving { dir } => {
                let nd = Direction { bits: held.bits & (!dir.bits & 15) };
                Entity {
                    movement: Some(MovementReceiver { direction: nd }),
                    velocity: held_velocity(nd),
                    ..e
                }
            },
            _ => e,
        }
    } else {
        e
    }
}

/// Offsets (position, then velocity) of the eight particles a `Fire`
/// spawns, as raw fixed-point values: eight evenly spread directions
/// at distance 300, each particle flying sideways.
pub open spec fn particle_table() -> Seq<(int, int, int, int)> {
    seq![
        (1228800, 0, 0, 4096),
        (868800, 868800, -2896, 2896),
        (0, 1228800, -4096, 0),
        (-868800, 868800, -2896, -2896),
        (-1228800, 0, 0, -4096),
        (-868800, -868800, 2896, -2896),
        (0, -1228800, 4096, 0),
        (868800, -868800, 2896, 2896),
    ]
}

/// The `i`-th particle spawned around `p`.
pub open spec fn particle_at(p: Position, i: int) -> Entity {
    let (dx, dy, vx, vy) = particle_table()[i];
    Entity {
        position: Position { x: offset_or(p.x, dx), y: offset_or(p.y, dy) },
        velocity: Velocity { vx: FixedPoint { raw: vx as i64 }, vy: FixedPoint { raw: vy as i64 } },
        color: Color {
            red: (20 * i) as u8,
            green: (255 - 16 * i) as u8,
            blue: 0,
            alpha: 255,
        },
        gravity: true,
        emitter: false,
        movement: None,
        control: None,
    }
}

/// The eight particles spawned around `p`, in order.
pub open spec fn eight_particles(p: Position) -> Seq<Entity> {
    Seq::new(8, |i: int| particle_at(p, i))
}

/// The particles a `Fire` by `pid` spawns: eight around every entity
/// the player controls, in entity order.
pub open spec fn fire_spawns(s: Seq<Entity>, pid: PlayerId) -> Seq<Entity>
    decreases s.len(),
{
    if s.len() == 0 {
        Seq::<Entity>::empty()
    } else {
        (if s[0].control == Some(pid) && s[0].movement is Some {
            eight_particles(s[0].position)
        } else {
            Seq::<Entity>::empty()
        }) + fire_spawns(s.skip(1), pid)
    }
}

/// Appending an entity appends its particles, if it fires.
pub proof fn lemma_fire_spawns_push(s: Seq<Entity>, e: Entity, pid: PlayerId)
    ensures
        fire_spawns(s.push(e), pid) == fire_spawns(s, pid) + (if e.control == Some(pid)
            && e.movement is Some {
            eight_particles(e.position)
        } else {
            Seq::<Entity>::empty()
        }),
    decreases s.len(),
{
    let tailp = (if e.control == Some(pid) && e.movement is Some {
        eight_particles(e.position)
    } else {
        Seq::<Entity>::empty()
    });
    if s.len() == 0 {
        assert(s.push(e).skip(1) =~= Seq::<Entity>::empty());
        assert(s.push(e)[0] == e);
        assert(fire_spawns(Seq::<Entity>::empty(), pid) == Seq::<Entity>::empty());
        assert(fire_spawns(s.push(e), pid) == tailp + Seq::<Entity>::empty());
        assert(tailp + Seq::<Entity>::empty() =~= tailp);
        assert(fire_spawns(s, pid) + tailp =~= tailp);
    } else {
        assert(s.push(e).skip(1) =~= s.skip(1).push(e));
        lemma_fire_spawns_push(s.skip(1), e, pid);
        assert(s.push(e)[0] == s[0]);
        let head = (if s[0].control == Some(pid) && s[0].movement is Some {
            eight_particles(s[0].position)
        } else {
            Seq::<Entity>::empty()
        });
        assert(fire_spawns(s.push(e), pid) == head + (fire_spawns(s.skip(1), pid) + tailp));
        assert(head + (fire_spawns(s.skip(1), pid) + tailp) =~= (head + fire_spawns(
            s.skip(1),
            pid,
        )) + tailp);
    }
}

/// The entity a `SpawnPlayer` creates: a controllable gravity emitter
/// at the origin.
pub open spec fn player_entity(pid: PlayerId) -> Entity {
    Entity {
        position: Position { x: FixedPoint { raw: 0 }, y: FixedPoint { raw: 0 } },
        velocity: Velocity { vx: FixedPoint { raw: 0 }, vy: FixedPoint { raw: 0 } },
        color: Color { red: 0, green: 0, blue: 0, alpha: 255 },
        gravity: false,
        emitter: true,
        movement: Some(MovementReceiver { direction: Direction { bits: 0 } }),
        control: Some(pid),
    }
}

/// How one action changes the entity list.
pub open spec fn apply_action(s: Seq<Entity>, a: Action) -> Seq<Entity> {
    match a {
        Action::PlayerAction { action, player_id } => match action {
            PlayerAction::StartMoving { .. } | PlayerAction::StopMoving { .. } => s.map_values(
                |e: Entity| recv_entity(e, action, player_id),
            ),
            PlayerAction::Fire => s + fire_spawns(s, player_id),
            _ => s,
        },
        Action::SpawnPlayer { player_id } => s + seq![player_entity(player_id)],
    }
}

/// How a tick's whole action list changes the entity list: the
/// actions are applied strictly in list order.
pub open spec fn apply_actions(s: Seq<Entity>, actions: Seq<Action>) -> Seq<Entity>
    decreases actions.len(),
{
    if actions.len() == 0 {
        s
    } else {
        apply_action(apply_actions(s, actions.drop_last()), actions.last())
    }
}

/// One integration step of one entity: the position moves by the
/// velocity.
pub open spec fn move_entity(e: Entity) -> Entity {
    Entity {
        position: Position {
            x: offset_or(e.position.x, e.velocity.vx.raw as int),
            y: offset_or(e.position.y, e.velocity.vy.raw as int),
        },
        ..e
    }
}

/// Raw representation of the gravitational constant: 2.
pub const GRAVITY_RAW: i64 = 8192;

/// One component of a gravity kick: the velocity component loses
/// `g * delta / dsq`; any overflow leaves the component unchanged.
pub open spec fn grav_component(vraw: int, delta: int, dsq: int) -> int
    recommends
        dsq != 0,
{
    let m = crate::fixed_point::mul_raw(GRAVITY_RAW as int, delta);
    if !in_i64(m) {
        vraw
    } else {
        let q = crate::fixed_point::div_raw(m, dsq);
        if !in_i64(q) {
            vraw
        } else if !in_i64(vraw - q) {
            vraw
        } else {
            vraw - q
        }
    }
}

/// The pull one emitter at `em` exerts on a body at `p` moving with
/// `v`: an inverse-square kick toward the emitter.  Overflowing or
/// coincident geometry exerts no pull.
pub open spec fn grav_kick(v: Velocity, p: Position, em: Position) -> Velocity {
    let dx = p.x.raw - em.x.raw;
    let dy = p.y.raw - em.y.raw;
    if !in_i64(dx) || !in_i64(dy) {
        v
    } else {
        let dx2 = crate::fixed_point::mul_raw(dx, dx);
        let dy2 = crate::fixed_point::mul_raw(dy, dy);
        if !in_i64(dx2) || !in_i64(dy2) {
            v
        } else {
            let dsq = dx2 + dy2;
            if !in_i64(dsq) || dsq == 0 {
                v
            } else {
                Velocity {
                    vx: FixedPoint { raw: grav_component(v.vx.raw as int, dx, dsq) as i64 },
                    vy: FixedPoint { raw: grav_component(v.vy.raw as int, dy, dsq) as i64 },
                }
            }
        }
    }
}

/// The pulls of a list of emitters, applied in order.
pub open spec fn grav_fold(v: Velocity, p: Position, ems: Seq<Position>) -> Velocity
    decreases ems.len(),
{
    if ems.len() == 0 {
        v
    } else {
        grav_fold(grav_kick(v, p, ems[0]), p, ems.skip(1))
    }
}

/// Appending an emitter applies its kick last.
pub proof fn lemma_grav_fold_push(v: Velocity, p: Position, ems: Seq<Position>, em: Position)
    ensures
        grav_fold(v, p, ems.push(em)) == grav_kick(grav_fold(v, p, ems), p, em),
    decreases ems.len(),
{
    if ems.len() == 0 {
        assert(ems.push(em).skip(1) =~= Seq::<Position>::empty());
        assert(ems.push(em)[0] == em);
        assert(grav_fold(v, p, ems.push(em)) == grav_fold(grav_kick(v, p, em), p, Seq::<
            Position,
        >::empty()));
    } else {
        assert(ems.push(em).skip(1) =~= ems.skip(1).push(em));
        assert(ems.push(em)[0] == ems[0]);
        lemma_grav_fold_push(grav_kick(v, p, ems[0]), p, ems.skip(1), em);
    }
}

/// The positions of the emitters, in entity order.
pub open spec fn emitter_positions(s: Seq<Entity>) -> Seq<Position>
    decreases s.len(),
{
    if s.len() == 0 {
        Seq::<Position>::empty()
    } else {
        (if s[0].emitter {
            seq![s[0].position]
        } else {
            Seq::<Position>::empty()
        }) + emitter_positions(s.skip(1))
    }
}

/// Appending an entity appends its emitter position, if it is one.
pub proof fn lemma_emitter_positions_push(s: Seq<Entity>, e: Entity)
    ensures
        emitter_positions(s.push(e)) == emitter_positions(s) + (if e.emitter {
            seq![e.position]
        } else {
            Seq::<Position>::empty()
        }),
    decreases s.len(),
{
    let tailp = (if e.emitter {
        seq![e.position]
    } else {
        Seq::<Position>::empty()
    });
    if s.len() == 0 {
        assert(s.push(e).skip(1) =~= Seq::<Entity>::empty());
        assert(s.push(e)[0] == e);
        assert(emitter_positions(Seq::<Entity>::empty()) == Seq::<Position>::empty());
        assert(emitter_positions(s.push(e)) == tailp + Seq::<Position>::empty());
        assert(tailp + Seq::<Position>::empty() =~= tailp);
        assert(emitter_positions(s) + tailp =~= tailp);
    } else {
        assert(s.push(e).skip(1) =~= s.skip(1).push(e));
        lemma_emitter_positions_push(s.skip(1), e);
        assert(s.push(e)[0] == s[0]);
        let head = (if s[0].emitter {
            seq![s[0].position]
        } else {
            Seq::<Position>::empty()
        });
        assert(emitter_positions(s.push(e)) == head + (emitter_positions(s.skip(1)) + tailp));
        assert(head + (emitter_positions(s.skip(1)) + tailp) =~= (head + emitter_positions(
            s.skip(1),
        )) + tailp);
    }
}

/// How gravity changes one entity, given the emitter positions.
pub open spec fn grav_entity(e: Entity, ems: Seq<Position>) -> Entity {
    if e.gravity {
        Entity { velocity: grav_fold(e.velocity, e.position, ems), ..e }
    } else {
        e
    }
}

/// One whole simulation step: the tick's actions in order, then
/// movement, then gravity.
pub open spec fn step_world(s: Seq<Entity>, actions: Seq<Action>) -> Seq<Entity> {
    let acted = apply_actions(s, actions);
    let moved = acted.map_values(|e: Entity| move_entity(e));
    moved.map_values(|e: Entity| grav_entity(e, emitter_positions(moved)))
}

// ---------------------------------------------------------------------
// The world checksum: a fold of a 64-bit FNV-style hash of each
// entity's position bytes, combined with exclusive or so that entity
// order does not matter to observers comparing worlds entity by
// entity.
// ---------------------------------------------------------------------

/// The FNV-1a offset basis.
pub const FNV_OFFSET_BASIS: u64 = 0xcbf29ce484222325;

/// The FNV-1a prime.
pub const FNV_PRIME: u64 = 0x100000001b3;

/// One FNV-1a round over a byte sequence.
pub open spec fn fnv64(data: Seq<u8>, acc: u64) -> u64
    decreases data.len(),
{
    if data.len() == 0 {
        acc
    } else {
        fnv64(
            data.skip(1),
            ((((acc ^ (data[0] as u64)) as int) * (FNV_PRIME as int)) % 0x1_0000_0000_0000_0000)
                as u64,
        )
    }
}

/// The hash of one entity: FNV over its position's canonical bytes.
pub open spec fn entity_hash(e: Entity) -> u64 {
    fnv64(enc_fixed(e.position.x) + enc_fixed(e.position.y), FNV_OFFSET_BASIS)
}

/// The checksum of a whole entity list.
pub open spec fn world_hash(s: Seq<Entity>) -> u64
    decreases s.len(),
{
    if s.len() == 0 {
        0u64
    } else {
        world_hash(s.drop_last()) ^ entity_hash(s.last())
    }
}

/// One FNV-1a round, executable form.
fn fnv64_exec(data: &Vec<u8>, acc0: u64) -> (r: u64)
    ensures
        r == fnv64(data@, acc0),
{
    let mut acc: u64 = acc0;
    let mut i: usize = 0;
    proof {
        assert(data@.skip(0) =~= data@);
    }
    while i < data.len()
        invariant
            0 <= i <= data@.len(),
            fnv64(data@, acc0) == fnv64(data@.skip(i as int), acc),
        decreases data@.len() - i,
    {
        proof {
            assert(data@.skip(i as int)[0] == data@[i as int]);
            assert(data@.skip(i as int).skip(1) =~= data@.skip(i + 1));
        }
        let x: u64 = acc ^ (data[i] as u64);
        let wide: u128 = (x as u128) * (FNV_PRIME as u128);
        acc = (wide % 0x1_0000_0000_0000_0000u128) as u64;
        i = i + 1;
    }
    proof {
        assert(data@.skip(data@.len() as int) =~= Seq::<u8>::empty());
    }
    acc
}

/// The hash of one entity, executable form.
fn entity_hash_exec(e: &Entity) -> (r: u64)
    ensures
        r == entity_hash(*e),
{
    let mut bytes = e.position.x.to_be_bytes();
    let mut more = e.position.y.to_be_bytes();
    bytes.append(&mut more);
    fnv64_exec(&bytes, FNV_OFFSET_BASIS)
}

/// The simulation world: its entities, in spawn order.
pub struct World {
    /// The entities, in spawn order.
    pub entities: Vec<Entity>,
}

impl World {
    /// Every entity is well formed.
    pub open spec fn wf(self) -> bool {
        entities_wf(self.entities@)
    }

    /// An empty world.
    pub fn new() -> (r: World)
        ensures
            r.entities@ == Seq::<Entity>::empty(),
            r.wf(),
    {
        World { entities: Vec::new() }
    }

    /// The checksum of the world's observable state.
    pub fn hash_world(&self) -> (r: u64)
        ensures
            r == world_hash(self.entities@),
    {
        let mut acc: u64 = 0;
        let mut i: usize = 0;
        while i < self.entities.len()
            invariant
                0 <= i <= self.entities@.len(),
                acc == world_hash(self.entities@.take(i as int)),
            decreases self.entities@.len() - i,
        {
            proof {
                assert(self.entities@.take(i + 1).drop_last() =~= self.entities@.take(i as int));
                assert(self.entities@.take(i + 1).last() == self.entities@[i as int]);
            }
            acc = acc ^ entity_hash_exec(&self.entities[i]);
            i = i + 1;
        }
        proof {
            assert(self.entities@.take(self.entities@.len() as int) =~= self.entities@);
        }
        acc
    }

    /// Applies one tick's action list and integrates physics: exactly
    /// one deterministic simulation step.
    pub fn step(&mut self, actions: &Vec<Action>)
        requires
            old(self).wf(),
            crate::actions::actions_wf(actions@),
        ensures
            final(self).entities@ == step_world(old(self).entities@, actions@),
            final(self).wf(),
    {
        // The tick's actions, in order.
        let mut i: usize = 0;
        let ghost s0 = self.entities@;
        while i < actions.len()
            invariant
                0 <= i <= actions@.len(),
                crate::actions::actions_wf(actions@),
                entities_wf(self.entities@),
                self.entities@ == apply_actions(s0, actions@.take(i as int)),
            decreases actions@.len() - i,
        {
            proof {
                assert(actions@.take(i + 1).drop_last() =~= actions@.take(i as int));
                assert(actions@.take(i + 1).last() == actions@[i as int]);
                assert(actions@[i as int].wf());
            }
            apply_one_action(&mut self.entities, &actions[i]);
            i = i + 1;
        }
        proof {
            assert(actions@.take(actions@.len() as int) =~= actions@);
        }
        // Movement.
        let ghost acted = self.entities@;
        let mut j: usize = 0;
        while j < self.entities.len()
            invariant
                0 <= j <= acted.len(),
                self.entities@.len() == acted.len(),
                forall|x: int| 0 <= x < j ==> #[trigger] self.entities@[x] == move_entity(acted[x]),
                forall|x: int| j <= x < acted.len() ==> #[trigger] self.entities@[x] == acted[x],
            decreases acted.len() - j,
        {
            let e = self.entities[j];
            let moved = move_entity_exec(e);
            self.entities.set(j, moved);
            j = j + 1;
        }
        proof {
            assert(self.entities@ =~= acted.map_values(|e: Entity| move_entity(e)));
            assert(entities_wf(self.entities@)) by {
                assert forall|x: int| 0 <= x < self.entities@.len() implies (
                #[trigger] self.entities@[x]).wf() by {
                    assert(self.entities@[x] == move_entity(acted[x]));
                }
            }
        }
        // Gravity.
        let ghost moved_s = self.entities@;
        let mut ems: Vec<Position> = Vec::new();
        let mut k: usize = 0;
        while k < self.entities.len()
            invariant
                0 <= k <= moved_s.len(),
                self.entities@ == moved_s,
                ems@ == emitter_positions(moved_s.take(k as int)),
            decreases moved_s.len() - k,
        {
            proof {
                assert(moved_s.take(k + 1) =~= moved_s.take(k as int).push(moved_s[k as int]));
                lemma_emitter_positions_push(moved_s.take(k as int), moved_s[k as int]);
            }
            if self.entities[k].emitter {
                ems.push(self.entities[k].position);
                proof {
                    assert(ems@ =~= emitter_positions(moved_s.take(k + 1)));
                }
            } else {
                proof {
                    assert(emitter_positions(moved_s.take(k as int)) + Seq::<Position>::empty()
                        =~= emitter_positions(moved_s.take(k as int)));
                }
            }
            k = k + 1;
        }
        proof {
            assert(moved_s.take(moved_s.len() as int) =~= moved_s);
        }
        let mut g: usize = 0;
        while g < self.entities.len()
            invariant
                0 <= g <= moved_s.len(),
                self.entities@.len() == moved_s.len(),
                ems@ == emitter_positions(moved_s),
                forall|x: int|
                    0 <= x < g ==> #[trigger] self.entities@[x] == grav_entity(moved_s[x], ems@),
                forall|x: int| g <= x < moved_s.len() ==> #[trigger] self.entities@[x]
                    == moved_s[x],
            decreases moved_s.len() - g,
        {
            let e = self.entities[g];
            if e.gravity {
                let mut v = e.velocity;
                let mut q: usize = 0;
                while q < ems.len()
                    invariant
                        0 <= q <= ems@.len(),
                        v == grav_fold(e.velocity, e.position, ems@.take(q as int)),
                    decreases ems@.len() - q,
                {
                    proof {
                        assert(ems@.take(q + 1) =~= ems@.take(q as int).push(ems@[q as int]));
                        lemma_grav_fold_push(
                            e.velocity,
                            e.position,
                            ems@.take(q as int),
                            ems@[q as int],
                        );
                    }
                    v = grav_kick_exec(v, e.position, ems[q]);
                    q = q + 1;
                }
                proof {
                    assert(ems@.take(ems@.len() as int) =~= ems@);
                }
                self.entities.set(g, Entity { velocity: v, ..e });
            }
            g = g + 1;
        }
        proof {
            assert(self.entities@ =~= moved_s.map_values(
                |e: Entity| grav_entity(e, emitter_positions(moved_s)),
            ));
            assert(entities_wf(self.entities@)) by {
                assert forall|x: int| 0 <= x < self.entities@.len() implies (
                #[trigger] self.entities@[x]).wf() by {
                    assert(self.entities@[x] == grav_entity(moved_s[x], emitter_positions(
                        moved_s,
                    )));
                }
            }
        }
    }
}

/// The position shifted by a raw delta, executable form.
fn offset_exec(f: FixedPoint, d: i64) -> (r: FixedPoint)
    ensures
        r == offset_or(f, d as int),
{
    match f.checked_add(FixedPoint::from_raw(d)) {
        Some(v) => v,
        None => f,
    }
}

/// One integration step of one entity, executable form.
fn move_entity_exec(e: Entity) -> (r: Entity)
    ensures
        r == move_entity(e),
{
    Entity {
        position: Position {
            x: offset_exec(e.position.x, e.velocity.vx.raw),
            y: offset_exec(e.position.y, e.velocity.vy.raw),
        },
        ..e
    }
}

/// The pull of one emitter, executable form.
fn grav_kick_exec(v: Velocity, p: Position, em: Position) -> (r: Velocity)
    ensures
        r == grav_kick(v, p, em),
{
    let dx = match p.x.checked_sub(em.x) {
        Some(d) => d,
        None => {
            return v;
        },
    };
    let dy = match p.y.checked_sub(em.y) {
        Some(d) => d,
        None => {
            return v;
        },
    };
    let dx2 = match dx.checked_mul(dx) {
        Some(d) => d,
        None => {
            return v;
        },
    };
    let dy2 = match dy.checked_mul(dy) {
        Some(d) => d,
        None => {
            return v;
        },
    };
    let dsq = match dx2.checked_add(dy2) {
        Some(d) => d,
        None => {
            return v;
        },
    };
    if dsq.raw == 0 {
        return v;
    }
    Velocity {
        vx: grav_component_exec(v.vx, dx, dsq),
        vy: grav_component_exec(v.vy, dy, dsq),
    }
}

/// One component of a gravity kick, executable form.
fn grav_component_exec(v: FixedPoint, delta: FixedPoint, dsq: FixedPoint) -> (r: FixedPoint)
    requires
        dsq.raw != 0,
    ensures
        r.raw == grav_component(v.raw as int, delta.raw as int, dsq.raw as int),
{
    let m = match FixedPoint::from_raw(GRAVITY_RAW).checked_mul(delta) {
        Some(m) => m,
        None => {
            return v;
        },
    };
    let q = match m.checked_div(dsq) {
        Some(q) => q,
        None => {
            return v;
        },
    };
    match v.checked_sub(q) {
        Some(nv) => nv,
        None => v,
    }
}

/// Applies one action to the entity list, executable form.
fn apply_one_action(entities: &mut Vec<Entity>, a: &Action)
    requires
        entities_wf(old(entities)@),
        a.wf(),
    ensures
        final(entities)@ == apply_action(old(entities)@, *a),
        entities_wf(final(entities)@),
{
    let ghost s0 = entities@;
    match a {
        Action::PlayerAction { action, player_id } => {
            match action {
                PlayerAction::StartMoving { .. } | PlayerAction::StopMoving { .. } => {
                    let mut i: usize = 0;
                    while i < entities.len()
                        invariant
                            0 <= i <= s0.len(),
                            entities@.len() == s0.len(),
                            forall|x: int|
                                0 <= x < i ==> #[trigger] entities@[x] == recv_entity(
                                    s0[x],
                                    *action,
                                    *player_id,
                                ),
                            forall|x: int| i <= x < s0.len() ==> #[trigger] entities@[x] == s0[x],
                        decreases s0.len() - i,
                    {
                        let e = entities[i];
                        let updated = recv_entity_exec(e, action, *player_id);
                        entities.set(i, updated);
                        i = i + 1;
                    }
                    proof {
                        assert(entities@ =~= s0.map_values(
                            |e: Entity| recv_entity(e, *action, *player_id),
                        ));
                        assert(entities_wf(entities@)) by {
                            assert forall|x: int| 0 <= x < entities@.len() implies (
                            #[trigger] entities@[x]).wf() by {
                                assert(entities@[x] == recv_entity(s0[x], *action, *player_id));
                                lemma_recv_entity_wf(s0[x], *action, *player_id);
                            }
                        }
                    }
                },
                PlayerAction::Fire => {
                    let n = entities.len();
                    let mut spawned: Vec<Entity> = Vec::new();
                    let mut i: usize = 0;
                    while i < n
                        invariant
                            0 <= i <= n,
                            n == s0.len(),
                            entities@ == s0,
                            spawned@ == fire_spawns(s0.take(i as int), *player_id),
                            entities_wf(spawned@),
                        decreases n - i,
                    {
                        proof {
                            assert(s0.take(i + 1) =~= s0.take(i as int).push(s0[i as int]));
                            lemma_fire_spawns_push(s0.take(i as int), s0[i as int], *player_id);
                        }
                        let fires = match (entities[i].control, entities[i].movement) {
                            (Some(pid), Some(_)) => pid.0 == player_id.0,
                            _ => false,
                        };
                        if fires {
                            push_particles(&mut spawned, entities[i].position);
                        } else {
                            proof {
                                assert(fire_spawns(s0.take(i as int), *player_id) + Seq::<
                                    Entity,
                                >::empty() =~= fire_spawns(s0.take(i as int), *player_id));
                            }
                        }
                        i = i + 1;
                    }
                    proof {
                        assert(s0.take(s0.len() as int) =~= s0);
                    }
                    let mut incoming = spawned;
                    entities.append(&mut incoming);
                    proof {
                        assert(entities_wf(entities@)) by {
                            assert forall|x: int| 0 <= x < entities@.len() implies (
                            #[trigger] entities@[x]).wf() by {
                                if x < s0.len() {
                                    assert(entities@[x] == s0[x]);
                                } else {
                                    assert(entities@[x] == fire_spawns(s0, *player_id)[x
                                        - s0.len()]);
                                }
                            }
                        }
                    }
                },
                _ => {},
            }
        },
        Action::SpawnPlayer { player_id } => {
            entities.push(
                Entity {
                    position: Position { x: FixedPoint::from_raw(0), y: FixedPoint::from_raw(0) },
                    velocity: Velocity {
                        vx: FixedPoint::from_raw(0),
                        vy: FixedPoint::from_raw(0),
                    },
                    color: Color { red: 0, green: 0, blue: 0, alpha: 255 },
                    gravity: false,
                    emitter: true,
                    movement: Some(MovementReceiver { direction: Direction { bits: 0 } }),
                    control: Some(*player_id),
                },
            );
            proof {
                assert(entities@ =~= s0 + seq![player_entity(*player_id)]);
            }
        },
    }
}

/// A movement intent leaves the entity well formed.
proof fn lemma_recv_entity_wf(e: Entity, intent: PlayerAction, pid: PlayerId)
    requires
        e.wf(),
        intent.wf(),
    ensures
        recv_entity(e, intent, pid).wf(),
{
    if e.control == Some(pid) && e.movement is Some {
        let held = e.movement->0.direction;
        match intent {
            PlayerAction::StartMoving { dir } => {
                let h = held.bits;
                let d = dir.bits;
                assert(h < 16 && d < 16 ==> (h | d) < 16) by (bit_vector);
            },
            PlayerAction::StopMoving { dir } => {
                let h = held.bits;
                let d = dir.bits;
                assert(h < 16 ==> (h & (!d & 15)) < 16) by (bit_vector);
            },
            _ => {},
        }
    }
}

/// How one movement intent changes one entity, executable form.
fn recv_entity_exec(e: Entity, intent: &PlayerAction, pid: PlayerId) -> (r: Entity)
    ensures
        r == recv_entity(e, *intent, pid),
{
    let controls = match (e.control, e.movement) {
        (Some(p), Some(_)) => p.0 == pid.0,
        _ => false,
    };
    if !controls {
        return e;
    }
    let held = match e.movement {
        Some(mr) => mr.direction,
        None => Direction { bits: 0 },
    };
    match intent {
        PlayerAction::StartMoving { dir } => {
            let nd = Direction { bits: held.bits | dir.bits };
            let mut vel = e.velocity;
            let mr = MovementReceiver { direction: nd };
            mr.apply(&mut vel);
            Entity { movement: Some(mr), velocity: vel, ..e }
        },
        PlayerAction::StopMoving { dir } => {
            let nd = Direction { bits: held.bits & (!dir.bits & 15) };
            let mut vel = e.velocity;
            let mr = MovementReceiver { direction: nd };
            mr.apply(&mut vel);
            Entity { movement: Some(mr), velocity: vel, ..e }
        },
        _ => e,
    }
}

/// Appends the eight particles a `Fire` spawns around `p`.
fn push_particles(out: &mut Vec<Entity>, p: Position)
    requires
        entities_wf(old(out)@),
    ensures
        final(out)@ == old(out)@ + eight_particles(p),
        entities_wf(final(out)@),
{
    out.push(make_particle(p, 1228800, 0, 0, 4096, 0, 255));
    out.push(make_particle(p, 868800, 868800, -2896, 2896, 20, 239));
    out.push(make_particle(p, 0, 1228800, -4096, 0, 40, 223));
    out.push(make_particle(p, -868800, 868800, -2896, -2896, 60, 207));
    out.push(make_particle(p, -1228800, 0, 0, -4096, 80, 191));
    out.push(make_particle(p, -868800, -868800, 2896, -2896, 100, 175));
    out.push(make_particle(p, 0, -1228800, 4096, 0, 120, 159));
    out.push(make_particle(p, 868800, -868800, 2896, 2896, 140, 143));
    proof {
        assert forall|i: int| 0 <= i < 8 implies eight_particles(p)[i] == particle_at(p, i) by {}
        assert(out@ =~= old(out)@ + eight_particles(p));
        assert(entities_wf(out@)) by {
            assert forall|x: int| 0 <= x < out@.len() implies (#[trigger] out@[x]).wf() by {
                if x >= old(out)@.len() {
                    assert(out@[x] == particle_at(p, x - old(out)@.len()));
                }
            }
        }
    }
}

/// Builds one particle from its raw offsets, velocity and color.
fn make_particle(p: Position, dx: i64, dy: i64, vx: i64, vy: i64, red: u8, green: u8) -> (r:
    Entity)
    ensures
        r == (Entity {
            position: Position { x: offset_or(p.x, dx as int), y: offset_or(p.y, dy as int) },
            velocity: Velocity { vx: FixedPoint { raw: vx }, vy: FixedPoint { raw: vy } },
            color: Color { red, green, blue: 0, alpha: 255 },
            gravity: true,
            emitter: false,
            movement: None,
            control: None,
        }),
{
    Entity {
        position: Position { x: offset_exec(p.x, dx), y: offset_exec(p.y, dy) },
        velocity: Velocity { vx: FixedPoint::from_raw(vx), vy: FixedPoint::from_raw(vy) },
        color: Color { red, green, blue: 0, alpha: 255 },
        gravity: true,
        emitter: false,
        movement: None,
        control: None,
    }
}

// ---------------------------------------------------------------------
// World snapshots: the byte form a joining client receives, built from
// the same primitives as the wire codec and proved lossless.
// ---------------------------------------------------------------------

/// Wire form of a truth value: one byte, 0 or 1.
pub open spec fn enc_bool(b: bool) -> Seq<u8> {
    if b {
        seq![1u8]
    } else {
        seq![0u8]
    }
}

/// Wire form of one entity.
pub open spec fn enc_entity(e: Entity) -> Seq<u8> {
    enc_fixed(e.position.x) + enc_fixed(e.position.y) + enc_fixed(e.velocity.vx) + enc_fixed(
        e.velocity.vy,
    ) + seq![e.color.red, e.color.green, e.color.blue, e.color.alpha] + enc_bool(e.gravity)
        + enc_bool(e.emitter) + enc_bool(e.movement is Some) + seq![
        match e.movement {
            Some(mr) => mr.direction.bits,
            None => 0u8,
        },
    ] + enc_bool(e.control is Some) + enc_u64(
        match e.control {
            Some(p) => p.0 as u64,
            None => 0u64,
        },
    )
}

/// Wire form of the entity list's elements, in order.
pub open spec fn enc_entity_seq(s: Seq<Entity>) -> Seq<u8>
    decreases s.len(),
{
    if s.len() == 0 {
        Seq::<u8>::empty()
    } else {
        enc_entity(s[0]) + enc_entity_seq(s.skip(1))
    }
}

/// Wire form of a whole snapshot: the entity count, then the entities.
pub open spec fn enc_world(s: Seq<Entity>) -> Seq<u8> {
    enc_u64(s.len() as u64) + enc_entity_seq(s)
}

/// Appending an entity appends its wire form.
pub proof fn lemma_enc_entity_seq_push(s: Seq<Entity>, e: Entity)
    ensures
        enc_entity_seq(s.push(e)) == enc_entity_seq(s) + enc_entity(e),
    decreases s.len(),
{
    if s.len() == 0 {
        assert(s.push(e).skip(1) =~= Seq::<Entity>::empty());
        assert(s.push(e)[0] == e);
        assert(enc_entity_seq(Seq::<Entity>::empty()) == Seq::<u8>::empty());
        assert(enc_entity_seq(s.push(e)) == enc_entity(e) + Seq::<u8>::empty());
        assert(enc_entity(e) + Seq::<u8>::empty() =~= enc_entity(e));
        assert(enc_entity_seq(s) + enc_entity(e) =~= enc_entity(e));
    } else {
        assert(s.push(e).skip(1) =~= s.skip(1).push(e));
        lemma_enc_entity_seq_push(s.skip(1), e);
        assert(s.push(e)[0] == s[0]);
        assert(enc_entity_seq(s.push(e)) == enc_entity(s[0]) + (enc_entity_seq(s.skip(1))
            + enc_entity(e)));
        assert(enc_entity(s[0]) + (enc_entity_seq(s.skip(1)) + enc_entity(e)) =~= (enc_entity(
            s[0],
        ) + enc_entity_seq(s.skip(1))) + enc_entity(e));
    }
}

/// Reads one byte.
pub open spec fn dec_byte(s: Seq<u8>) -> Option<(u8, Seq<u8>)> {
    if s.len() >= 1 {
        Some((s[0], s.skip(1)))
    } else {
        None
    }
}

/// Reads a truth value; bytes other than 0 and 1 are malformed.
pub open spec fn dec_bool(s: Seq<u8>) -> Option<(bool, Seq<u8>)> {
    match dec_byte(s) {
        Some((b, r)) => if b == 0 {
            Some((false, r))
        } else if b == 1 {
            Some((true, r))
        } else {
            None
        },
        None => None,
    }
}

/// Reads an entity's four fixed-point fields.
pub open spec fn dec_fix4(s: Seq<u8>) -> Option<
    ((FixedPoint, FixedPoint, FixedPoint, FixedPoint), Seq<u8>),
> {
    match dec_fixed(s) {
        Some((px, s1)) => match dec_fixed(s1) {
            Some((py, s2)) => match dec_fixed(s2) {
                Some((vx, s3)) => match dec_fixed(s3) {
                    Some((vy, s4)) => Some(((px, py, vx, vy), s4)),
                    None => None,
                },
                None => None,
            },
            None => None,
        },
        None => None,
    }
}

/// Reads an entity's color.
pub open spec fn dec_color(s: Seq<u8>) -> Option<(Color, Seq<u8>)> {
    match dec_byte(s) {
        Some((red, s1)) => match dec_byte(s1) {
            Some((green, s2)) => match dec_byte(s2) {
                Some((blue, s3)) => match dec_byte(s3) {
                    Some((alpha, s4)) => Some((Color { red, green, blue, alpha }, s4)),
                    None => None,
                },
                None => None,
            },
            None => None,
        },
        None => None,
    }
}

/// Reads one entity.
pub open spec fn dec_entity(s: Seq<u8>) -> Option<(Entity, Seq<u8>)> {
    match dec_fix4(s) {
        Some((f4, s1)) => match dec_color(s1) {
            Some((color, s2)) => match dec_bool(s2) {
                Some((gravity, s3)) => match dec_bool(s3) {
                    Some((emitter, s4)) => dec_entity_rest(
                        s4,
                        f4.0,
                        f4.1,
                        f4.2,
                        f4.3,
                        color,
                        gravity,
                        emitter,
                    ),
                    None => None,
                },
                None => None,
            },
            None => None,
        },
        None => None,
    }
}

/// Reads an entity's movement and control tail.
pub open spec fn dec_entity_rest(
    s: Seq<u8>,
    px: FixedPoint,
    py: FixedPoint,
    vx: FixedPoint,
    vy: FixedPoint,
    color: Color,
    gravity: bool,
    emitter: bool,
) -> Option<(Entity, Seq<u8>)> {
    match dec_bool(s) {
        Some((has_movement, s1)) => match dec_byte(s1) {
            Some((dirbits, s2)) => if dirbits >= 16 || (!has_movement && dirbits != 0) {
                None
            } else {
                match dec_bool(s2) {
                    Some((has_control, s3)) => match dec_u64(s3) {
                        Some((pid, s4)) => if pid > usize::MAX as u64 || (!has_control && pid
                            != 0) {
                            None
                        } else {
                            Some(
                                (
                                    Entity {
                                        position: Position { x: px, y: py },
                                        velocity: Velocity { vx, vy },
                                        color,
                                        gravity,
                                        emitter,
                                        movement: if has_movement {
                                            Some(
                                                MovementReceiver {
                                                    direction: Direction { bits: dirbits },
                                                },
                                            )
                                        } else {
                                            None
                                        },
                                        control: if has_control {
                                            Some(PlayerId(pid as usize))
                                        } else {
                                            None
                                        },
                                    },
                                    s4,
                                ),
                            )
                        },
                        None => None,
                    },
                    None => None,
                }
            },
            None => None,
        },
        None => None,
    }
}

/// Reads exactly `n` entities.
pub open spec fn dec_entity_n(s: Seq<u8>, n: nat) -> Option<(Seq<Entity>, Seq<u8>)>
    decreases n,
{
    if n == 0 {
        Some((Seq::<Entity>::empty(), s))
    } else {
        match dec_entity(s) {
            Some((e, r)) => match dec_entity_n(r, (n - 1) as nat) {
                Some((rest, r2)) => Some((seq![e] + rest, r2)),
                None => None,
            },
            None => None,
        }
    }
}

/// Reads a whole snapshot.
pub open spec fn dec_world(s: Seq<u8>) -> Option<(Seq<Entity>, Seq<u8>)> {
    match dec_u64(s) {
        Some((n, r)) => dec_entity_n(r, n as nat),
        None => None,
    }
}

/// Reading a truth value back from its wire form.
pub proof fn lemma_dec_enc_bool(b: bool, rest: Seq<u8>)
    ensures
        dec_bool(enc_bool(b) + rest) == Some((b, rest)),
{
    let s = enc_bool(b) + rest;
    assert(s.skip(1) =~= rest);
}

/// Reading four fixed-point values back from their wire form.
pub proof fn lemma_dec_enc_fix4(
    px: FixedPoint,
    py: FixedPoint,
    vx: FixedPoint,
    vy: FixedPoint,
    rest: Seq<u8>,
)
    ensures
        dec_fix4(
            enc_fixed(px) + (enc_fixed(py) + (enc_fixed(vx) + (enc_fixed(vy) + rest))),
        ) == Some(((px, py, vx, vy), rest)),
{
    lemma_dec_enc_fixed(px, enc_fixed(py) + (enc_fixed(vx) + (enc_fixed(vy) + rest)));
    lemma_dec_enc_fixed(py, enc_fixed(vx) + (enc_fixed(vy) + rest));
    lemma_dec_enc_fixed(vx, enc_fixed(vy) + rest);
    lemma_dec_enc_fixed(vy, rest);
}

/// Reading a color back from its wire form.
pub proof fn lemma_dec_enc_color(c: Color, rest: Seq<u8>)
    ensures
        dec_color(seq![c.red, c.green, c.blue, c.alpha] + rest) == Some((c, rest)),
{
    let s = seq![c.red, c.green, c.blue, c.alpha] + rest;
    assert(s[0] == c.red);
    let c2 = seq![c.green, c.blue, c.alpha] + rest;
    assert(s.skip(1) =~= c2);
    assert(c2[0] == c.green);
    let c3 = seq![c.blue, c.alpha] + rest;
    assert(c2.skip(1) =~= c3);
    assert(c3[0] == c.blue);
    let c4 = seq![c.alpha] + rest;
    assert(c3.skip(1) =~= c4);
    assert(c4[0] == c.alpha);
    assert(c4.skip(1) =~= rest);
}

/// Reading one entity back from its wire form.
#[verifier::spinoff_prover]
#[verifier::rlimit(100)]
pub proof fn lemma_dec_enc_entity(e: Entity, rest: Seq<u8>)
    requires
        e.wf(),
    ensures
        dec_entity(enc_entity(e) + rest) == Some((e, rest)),
{
    let dirbyte = (match e.movement {
        Some(mr) => mr.direction.bits,
        None => 0u8,
    });
    let pidword = (match e.control {
        Some(p) => p.0 as u64,
        None => 0u64,
    });
    let a1 = enc_fixed(e.position.x);
    let a2 = enc_fixed(e.position.y);
    let a3 = enc_fixed(e.velocity.vx);
    let a4 = enc_fixed(e.velocity.vy);
    let a5 = seq![e.color.red, e.color.green, e.color.blue, e.color.alpha];
    let a6 = enc_bool(e.gravity);
    let a7 = enc_bool(e.emitter);
    let a8 = enc_bool(e.movement is Some);
    let a9 = seq![dirbyte];
    let a10 = enc_bool(e.control is Some);
    let a11 = enc_u64(pidword);
    let l2 = a1 + a2;
    let l3 = l2 + a3;
    let l4 = l3 + a4;
    let l5 = l4 + a5;
    let l6 = l5 + a6;
    let l7 = l6 + a7;
    let l8 = l7 + a8;
    let l9 = l8 + a9;
    let l10 = l9 + a10;
    let t11 = a11 + rest;
    let t10 = a10 + t11;
    let t9 = a9 + t10;
    let t8 = a8 + t9;
    let t7 = a7 + t8;
    let t6 = a6 + t7;
    let t5 = a5 + t6;
    let t4 = a4 + t5;
    let t3 = a3 + t4;
    let t2 = a2 + t3;
    assert(enc_entity(e) == l10 + a11);
    vstd::seq_lib::lemma_concat_associative(l10, a11, rest);
    vstd::seq_lib::lemma_concat_associative(l9, a10, t11);
    vstd::seq_lib::lemma_concat_associative(l8, a9, t10);
    vstd::seq_lib::lemma_concat_associative(l7, a8, t9);
    vstd::seq_lib::lemma_concat_associative(l6, a7, t8);
    vstd::seq_lib::lemma_concat_associative(l5, a6, t7);
    vstd::seq_lib::lemma_concat_associative(l4, a5, t6);
    vstd::seq_lib::lemma_concat_associative(l3, a4, t5);
    vstd::seq_lib::lemma_concat_associative(l2, a3, t4);
    vstd::seq_lib::lemma_concat_associative(a1, a2, t3);
    assert(enc_entity(e) + rest == a1 + t2);
    assert(a1 + t2 =~= a1 + (a2 + (a3 + (a4 + t5))));
    lemma_dec_enc_fix4(e.position.x, e.position.y, e.velocity.vx, e.velocity.vy, t5);
    assert(dec_fix4(a1 + t2) == Some(
        ((e.position.x, e.position.y, e.velocity.vx, e.velocity.vy), t5),
    ));
    lemma_dec_enc_color(e.color, t6);
    lemma_dec_enc_bool(e.gravity, t7);
    lemma_dec_enc_bool(e.emitter, t8);
    // The tail: movement, direction byte, control, player word.
    lemma_dec_enc_bool(e.movement is Some, t9);
    assert(t9[0] == dirbyte);
    assert(t9.skip(1) =~= t10);
    lemma_dec_enc_bool(e.control is Some, t11);
    lemma_dec_enc_u64(pidword, rest);
    assert(dirbyte < 16);
    assert(pidword <= usize::MAX as u64);
    assert(dec_entity_rest(
        t8,
        e.position.x,
        e.position.y,
        e.velocity.vx,
        e.velocity.vy,
        e.color,
        e.gravity,
        e.emitter,
    ) == Some((e, rest)));
}

/// Reading an entity list back from its wire form.
#[verifier::spinoff_prover]
#[verifier::rlimit(100)]
pub proof fn lemma_dec_enc_entity_seq(s: Seq<Entity>, rest: Seq<u8>)
    requires
        entities_wf(s),
    ensures
        dec_entity_n(enc_entity_seq(s) + rest, s.len()) == Some((s, rest)),
    decreases s.len(),
{
    if s.len() == 0 {
        assert(enc_entity_seq(s) + rest =~= rest);
        assert(s =~= Seq::<Entity>::empty());
    } else {
        let tail = s.skip(1);
        assert(enc_entity_seq(s) == enc_entity(s[0]) + enc_entity_seq(tail));
        vstd::seq_lib::lemma_concat_associative(enc_entity(s[0]), enc_entity_seq(tail), rest);
        assert(s[0].wf());
        lemma_dec_enc_entity(s[0], enc_entity_seq(tail) + rest);
        assert(entities_wf(tail)) by {
            assert forall|i: int| 0 <= i < tail.len() implies (#[trigger] tail[i]).wf() by {
                assert(tail[i] == s[i + 1]);
            }
        }
        lemma_dec_enc_entity_seq(tail, rest);
        assert(seq![s[0]] + tail =~= s);
    }
}

/// Loading a serialized world reproduces it exactly, entity for
/// entity: the round-trip law for world snapshots.  Every observer of
/// the loaded world, the checksum included, therefore sees the
/// original.
pub proof fn lemma_world_snapshot_round_trip(s: Seq<Entity>, rest: Seq<u8>)
    requires
        entities_wf(s),
        s.len() <= usize::MAX,
    ensures
        dec_world(enc_world(s) + rest) == Some((s, rest)),
{
    assert(enc_world(s) + rest =~= enc_u64(s.len() as u64) + (enc_entity_seq(s) + rest));
    lemma_dec_enc_u64(s.len() as u64, enc_entity_seq(s) + rest);
    lemma_dec_enc_entity_seq(s, rest);
}

/// Reads one byte at `pos`, executable form.
fn decode_byte(buf: &Vec<u8>, pos: usize) -> (r: Option<(u8, usize)>)
    requires
        pos <= buf@.len(),
    ensures
        r matches Some((b, p)) ==> pos <= p <= buf@.len() && dec_byte(buf@.skip(pos as int))
            == Some((b, buf@.skip(p as int))),
        r is None ==> dec_byte(buf@.skip(pos as int)) is None,
{
    if pos < buf.len() {
        proof {
            assert(buf@.skip(pos as int)[0] == buf@[pos as int]);
            assert(buf@.skip(pos as int).skip(1) =~= buf@.skip(pos + 1));
        }
        Some((buf[pos], pos + 1))
    } else {
        None
    }
}

/// Reads a truth value at `pos`, executable form.
fn decode_bool(buf: &Vec<u8>, pos: usize) -> (r: Option<(bool, usize)>)
    requires
        pos <= buf@.len(),
    ensures
        r matches Some((b, p)) ==> pos <= p <= buf@.len() && dec_bool(buf@.skip(pos as int))
            == Some((b, buf@.skip(p as int))),
        r is None ==> dec_bool(buf@.skip(pos as int)) is None,
{
    match decode_byte(buf, pos) {
        Some((b, p)) => {
            if b == 0 {
                Some((false, p))
            } else if b == 1 {
                Some((true, p))
            } else {
                None
            }
        },
        None => None,
    }
}

/// Reads one entity at `pos`, executable form.
fn decode_entity(buf: &Vec<u8>, pos: usize) -> (r: Option<(Entity, usize)>)
    requires
        pos <= buf@.len(),
    ensures
        r matches Some((e, p)) ==> pos <= p <= buf@.len() && dec_entity(buf@.skip(pos as int))
            == Some((e, buf@.skip(p as int))) && e.wf(),
        r is None ==> dec_entity(buf@.skip(pos as int)) is None,
{
    let (px, p1) = match crate::codec::decode_fixed(buf, pos) {
        Some(v) => v,
        None => {
            return None;
        },
    };
    let (py, p2) = match crate::codec::decode_fixed(buf, p1) {
        Some(v) => v,
        None => {
            return None;
        },
    };
    let (vx, p3) = match crate::codec::decode_fixed(buf, p2) {
        Some(v) => v,
        None => {
            return None;
        },
    };
    let (vy, p4) = match crate::codec::decode_fixed(buf, p3) {
        Some(v) => v,
        None => {
            return None;
        },
    };
    let (red, p5) = match decode_byte(buf, p4) {
        Some(v) => v,
        None => {
            return None;
        },
    };
    let (green, p6) = match decode_byte(buf, p5) {
        Some(v) => v,
        None => {
            return None;
        },
    };
    let (blue, p7) = match decode_byte(buf, p6) {
        Some(v) => v,
        None => {
            return None;
        },
    };
    let (alpha, p8) = match decode_byte(buf, p7) {
        Some(v) => v,
        None => {
            return None;
        },
    };
    let (gravity, p9) = match decode_bool(buf, p8) {
        Some(v) => v,
        None => {
            return None;
        },
    };
    let (emitter, p10) = match decode_bool(buf, p9) {
        Some(v) => v,
        None => {
            return None;
        },
    };
    let (has_movement, p11) = match decode_bool(buf, p10) {
        Some(v) => v,
        None => {
            return None;
        },
    };
    let (dirbits, p12) = match decode_byte(buf, p11) {
        Some(v) => v,
        None => {
            return None;
        },
    };
    if dirbits >= 16 || (!has_movement && dirbits != 0) {
        return None;
    }
    let (has_control, p13) = match decode_bool(buf, p12) {
        Some(v) => v,
        None => {
            return None;
        },
    };
    let (pid, p14) = match crate::codec::decode_u64(buf, p13) {
        Some(v) => v,
        None => {
            return None;
        },
    };
    if pid > usize::MAX as u64 || (!has_control && pid != 0) {
        return None;
    }
    Some(
        (
            Entity {
                position: Position { x: px, y: py },
                velocity: Velocity { vx, vy },
                color: Color { red, green, blue, alpha },
                gravity,
                emitter,
                movement: if has_movement {
                    Some(MovementReceiver { direction: Direction { bits: dirbits } })
                } else {
                    None
                },
                control: if has_control {
                    Some(PlayerId(pid as usize))
                } else {
                    None
                },
            },
            p14,
        ),
    )
}

/// Appends the wire form of one entity.
fn encode_entity_into(out: &mut Vec<u8>, e: &Entity)
    ensures
        final(out)@ == old(out)@ + enc_entity(*e),
{
    let mut b0 = e.position.x.to_be_bytes();
    out.append(&mut b0);
    let mut b1 = e.position.y.to_be_bytes();
    out.append(&mut b1);
    let mut b2 = e.velocity.vx.to_be_bytes();
    out.append(&mut b2);
    let mut b3 = e.velocity.vy.to_be_bytes();
    out.append(&mut b3);
    out.push(e.color.red);
    out.push(e.color.green);
    out.push(e.color.blue);
    out.push(e.color.alpha);
    out.push(if e.gravity { 1u8 } else { 0u8 });
    out.push(if e.emitter { 1u8 } else { 0u8 });
    match e.movement {
        Some(mr) => {
            out.push(1u8);
            out.push(mr.direction.bits);
        },
        None => {
            out.push(0u8);
            out.push(0u8);
        },
    }
    let pidword: u64 = match e.control {
        Some(p) => {
            out.push(1u8);
            p.0 as u64
        },
        None => {
            out.push(0u8);
            0u64
        },
    };
    let mut b4 = crate::fixed_point::u64_to_be_bytes(pidword);
    out.append(&mut b4);
    proof {
        assert(out@ =~= old(out)@ + enc_entity(*e));
    }
}

impl World {
    /// The world's snapshot: its byte form for a joining client.
    pub fn serialize_world(&self) -> (r: Vec<u8>)
        ensures
            r@ == enc_world(self.entities@),
            self.entities@.len() <= usize::MAX,
    {
        let mut out: Vec<u8> = Vec::new();
        let mut count_bytes = crate::fixed_point::u64_to_be_bytes(self.entities.len() as u64);
        out.append(&mut count_bytes);
        let ghost base = out@;
        let mut i: usize = 0;
        while i < self.entities.len()
            invariant
                0 <= i <= self.entities@.len(),
                out@ == base + enc_entity_seq(self.entities@.take(i as int)),
            decreases self.entities@.len() - i,
        {
            proof {
                lemma_enc_entity_seq_push(
                    self.entities@.take(i as int),
                    self.entities@[i as int],
                );
                assert(self.entities@.take(i as int).push(self.entities@[i as int])
                    =~= self.entities@.take(i + 1));
            }
            encode_entity_into(&mut out, &self.entities[i]);
            proof {
                assert(out@ =~= base + enc_entity_seq(self.entities@.take(i + 1)));
            }
            i = i + 1;
        }
        proof {
            assert(self.entities@.take(self.entities@.len() as int) =~= self.entities@);
            assert(out@ =~= enc_world(self.entities@));
        }
        out
    }

    /// Loads a world from its snapshot.  `None` means the bytes are
    /// malformed: not a snapshot, or trailing bytes follow it.
    pub fn load_world(bytes: &Vec<u8>) -> (r: Option<World>)
        ensures
            r matches Some(w) ==> {
                &&& dec_world(bytes@) matches Some(pr) && pr.0 == w.entities@ && pr.1.len() == 0
                &&& w.wf()
            },
            r is None ==> match dec_world(bytes@) {
                Some(pr) => pr.1.len() != 0,
                None => true,
            },
    {
        proof {
            assert(bytes@.skip(0) =~= bytes@);
        }
        let (n, p0) = match crate::codec::decode_u64(bytes, 0) {
            Some(v) => v,
            None => {
                return None;
            },
        };
        let mut out: Vec<Entity> = Vec::new();
        let mut p: usize = p0;
        let mut i: u64 = 0;
        while i < n
            invariant
                p <= bytes@.len(),
                0 <= i <= n,
                out@.len() == i,
                entities_wf(out@),
                dec_u64(bytes@) == Some((n, bytes@.skip(p0 as int))),
                match dec_entity_n(bytes@.skip(p as int), (n - i) as nat) {
                    Some((s2, r2)) => dec_entity_n(bytes@.skip(p0 as int), n as nat) == Some(
                        (out@ + s2, r2),
                    ),
                    None => dec_entity_n(bytes@.skip(p0 as int), n as nat) is None,
                },
            decreases n - i,
        {
            match decode_entity(bytes, p) {
                Some((e, p2)) => {
                    proof {
                        let ghost before = out@;
                        match dec_entity_n(bytes@.skip(p2 as int), (n - i - 1) as nat) {
                            Some((s2, r2)) => {
                                assert(dec_entity_n(bytes@.skip(p as int), (n - i) as nat)
                                    == Some((seq![e] + s2, r2)));
                                assert(before + (seq![e] + s2) =~= before.push(e) + s2);
                            },
                            None => {
                                assert(dec_entity_n(
                                    bytes@.skip(p as int),
                                    (n - i) as nat,
                                ) is None);
                            },
                        }
                    }
                    out.push(e);
                    p = p2;
                    i = i + 1;
                },
                None => {
                    proof {
                        assert(dec_entity_n(bytes@.skip(p as int), (n - i) as nat) is None);
                    }
                    return None;
                },
            }
        }
        if p != bytes.len() {
            proof {
                assert(dec_entity_n(bytes@.skip(p as int), 0) == Some(
                    (Seq::<Entity>::empty(), bytes@.skip(p as int)),
                ));
                assert(out@ + Seq::<Entity>::empty() =~= out@);
                assert(bytes@.skip(p as int).len() != 0);
            }
            return None;
        }
        proof {
            assert(dec_entity_n(bytes@.skip(p as int), 0) == Some(
                (Seq::<Entity>::empty(), bytes@.skip(p as int)),
            ));
            assert(out@ + Seq::<Entity>::empty() =~= out@);
            assert(bytes@.skip(p as int).len() == 0);
        }
        Some(World { entities: out })
    }

    /// The starting world of a locally hosted session: eight falling
    /// circles and one controllable gravity emitter at the origin.
    pub fn init_demo() -> (r: World)
        ensures
            r.wf(),
            r.entities@.len() == 9,
    {
        let mut w = World::new();
        let mut i: usize = 0;
        while i < 8
            invariant
                entities_wf(w.entities@),
                w.entities@.len() == i,
                0 <= i <= 8,
            decreases 8 - i,
        {
            let xi: i64 = -32 * (i as i64);
            w.entities.push(
                Entity {
                    position: Position {
                        x: FixedPoint::from_int(xi),
                        y: FixedPoint::from_int(-8),
                    },
                    velocity: Velocity {
                        vx: FixedPoint::from_int(1),
                        vy: FixedPoint::from_int(-1),
                    },
                    color: Color {
                        red: 20 * (i as u8),
                        green: 255 - 16 * (i as u8),
                        blue: 0,
                        alpha: 255,
                    },
                    gravity: true,
                    emitter: false,
                    movement: None,
                    control: None,
                },
            );
            i = i + 1;
        }
        w.entities.push(
            Entity {
                position: Position { x: FixedPoint::from_int(0), y: FixedPoint::from_int(0) },
                velocity: Velocity { vx: FixedPoint::from_int(0), vy: FixedPoint::from_int(0) },
                color: Color { red: 0, green: 0, blue: 0, alpha: 255 },
                gravity: false,
                emitter: true,
                movement: Some(MovementReceiver { direction: Direction { bits: 0 } }),
                control: None,
            },
        );
        w
    }
}

} // verus!
