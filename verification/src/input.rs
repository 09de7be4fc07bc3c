//! Turning raw input events into player intents.
//!
//! The embedding layer captures keyboard and mouse events and hands
//! them over as plain [`InputEvent`] values; this module maps them to
//! [`PlayerAction`] intents, tags them with the local player, and
//! queues them for the active scheduler.  The mapping is the usual
//! one: `w`/`a`/`s`/`d` start and stop movement, the space bar fires.

use crate::actions::{Action, Direction, PlayerAction, PlayerId, ResActionQueue};
use vstd::prelude::*;

verus! {

/// A raw input event, as the embedding layer reports it.
pub enum InputEvent {
    /// A key went down.
    KeyDown { key: String },
    /// A key came up.
    KeyUp { key: String },
    /// The pointer moved.
    MouseMove { x: i32, y: i32 },
    /// A pointer button went down.
    MouseDown { button: u8 },
    /// A pointer button came up.
    MouseUp { button: u8 },
}

/// The intent a key-down maps to.
pub open spec fn key_down_intent(key: Seq<char>) -> Option<PlayerAction> {
    if key == "w"@ {
        Some(PlayerAction::StartMoving { dir: Direction { bits: 1 } })
    } else if key == "s"@ {
        Some(PlayerAction::StartMoving { dir: Direction { bits: 2 } })
    } else if key == "a"@ {
        Some(PlayerAction::StartMoving { dir: Direction { bits: 4 } })
    } else if key == "d"@ {
        Some(PlayerAction::StartMoving { dir: Direction { bits: 8 } })
    } else if key == " "@ {
        Some(PlayerAction::Fire)
    } else {
        None
    }
}

/// The intent a key-up maps to.
pub open spec fn key_up_intent(key: Seq<char>) -> Option<PlayerAction> {
    if key == "w"@ {
        Some(PlayerAction::StopMoving { dir: Direction { bits: 1 } })
    } else if key == "s"@ {
        Some(PlayerAction::StopMoving { dir: Direction { bits: 2 } })
    } else if key == "a"@ {
        Some(PlayerAction::StopMoving { dir: Direction { bits: 4 } })
    } else if key == "d"@ {
        Some(PlayerAction::StopMoving { dir: Direction { bits: 8 } })
    } else {
        None
    }
}

/// The intent an arbitrary event maps to; pointer events produce none.
pub open spec fn event_intent(e: InputEvent) -> Option<PlayerAction> {
    match e {
        InputEvent::KeyDown { key } => key_down_intent(key@),
        InputEvent::KeyUp { key } => key_up_intent(key@),
        _ => None,
    }
}

/// The tagged actions a list of events produces, in event order.
pub open spec fn mapped_actions(events: Seq<InputEvent>, player_id: PlayerId) -> Seq<Action>
    decreases events.len(),
{
    if events.len() == 0 {
        Seq::<Action>::empty()
    } else {
        (match event_intent(events[0]) {
            Some(a) => seq![Action::PlayerAction { action: a, player_id }],
            None => Seq::<Action>::empty(),
        }) + mapped_actions(events.skip(1), player_id)
    }
}

/// Appending an event appends its mapped action, if any.
pub proof fn lemma_mapped_actions_push(events: Seq<InputEvent>, e: InputEvent, player_id: PlayerId)
    ensures
        mapped_actions(events.push(e), player_id) == mapped_actions(events, player_id) + (
        match event_intent(e) {
            Some(a) => seq![Action::PlayerAction { action: a, player_id }],
            None => Seq::<Action>::empty(),
        }),
    decreases events.len(),
{
    let tailp = (match event_intent(e) {
        Some(a) => seq![Action::PlayerAction { action: a, player_id }],
        None => Seq::<Action>::empty(),
    });
    if events.len() == 0 {
        assert(events.push(e).skip(1) =~= Seq::<InputEvent>::empty());
        assert(events.push(e)[0] == e);
        assert(mapped_actions(Seq::<InputEvent>::empty(), player_id) == Seq::<Action>::empty());
        assert(mapped_actions(events.push(e), player_id) == tailp + Seq::<Action>::empty());
        assert(tailp + Seq::<Action>::empty() =~= tailp);
        assert(mapped_actions(events, player_id) + tailp =~= tailp);
    } else {
        assert(events.push(e).skip(1) =~= events.skip(1).push(e));
        lemma_mapped_actions_push(events.skip(1), e, player_id);
        assert(events.push(e)[0] == events[0]);
        let head = (match event_intent(events[0]) {
            Some(a) => seq![Action::PlayerAction { action: a, player_id }],
            None => Seq::<Action>::empty(),
        });
        assert(mapped_actions(events.push(e), player_id) == head + (mapped_actions(
            events.skip(1),
            player_id,
        ) + tailp));
        assert(head + (mapped_actions(events.skip(1), player_id) + tailp) =~= (head
            + mapped_actions(events.skip(1), player_id)) + tailp);
    }
}

/// Every mapped intent uses only the four direction bits.
pub proof fn lemma_event_intent_wf(e: InputEvent)
    ensures
        event_intent(e) matches Some(a) ==> a.wf(),
{
}

/// Whether the key string equals the given literal.
fn key_is(key: &String, lit: &str) -> (r: bool)
    ensures
        r == (key@ == lit@),
{
    let owned: String = lit.to_owned();
    *key == owned
}

/// Maps one event to the intent it stands for, if any.
pub fn map_input_event(event: &InputEvent) -> (r: Option<PlayerAction>)
    ensures
        r == event_intent(*event),
        r matches Some(a) ==> a.wf(),
{
    match event {
        InputEvent::KeyDown { key } => {
            if key_is(key, "w") {
                Some(PlayerAction::StartMoving { dir: Direction { bits: 1 } })
            } else if key_is(key, "s") {
                Some(PlayerAction::StartMoving { dir: Direction { bits: 2 } })
            } else if key_is(key, "a") {
                Some(PlayerAction::StartMoving { dir: Direction { bits: 4 } })
            } else if key_is(key, "d") {
                Some(PlayerAction::StartMoving { dir: Direction { bits: 8 } })
            } else if key_is(key, " ") {
                Some(PlayerAction::Fire)
            } else {
                None
            }
        },
        InputEvent::KeyUp { key } => {
            if key_is(key, "w") {
                Some(PlayerAction::StopMoving { dir: Direction { bits: 1 } })
            } else if key_is(key, "s") {
                Some(PlayerAction::StopMoving { dir: Direction { bits: 2 } })
            } else if key_is(key, "a") {
                Some(PlayerAction::StopMoving { dir: Direction { bits: 4 } })
            } else if key_is(key, "d") {
                Some(PlayerAction::StopMoving { dir: Direction { bits: 8 } })
            } else {
                None
            }
        },
        _ => None,
    }
}

/// Maps a frame's input events to tagged actions and queues them, in
/// event order.
pub fn sys_input(events: Vec<InputEvent>, action_queue: &mut ResActionQueue, player_id: PlayerId)
    ensures
        final(action_queue).view_queue() == old(action_queue).view_queue() + mapped_actions(
            events@,
            player_id,
        ),
{
    let ghost all = events@;
    let ghost base = action_queue.view_queue();
    let mut incoming = events;
    proof {
        assert(incoming@ =~= all.skip(0));
        assert(mapped_actions(all.take(0), player_id) =~= Seq::<Action>::empty());
        assert(base + Seq::<Action>::empty() =~= base);
    }
    while incoming.len() > 0
        invariant
            incoming@.len() <= all.len(),
            incoming@ == all.skip(all.len() - incoming@.len()),
            action_queue.view_queue() == base + mapped_actions(
                all.take(all.len() - incoming@.len()),
                player_id,
            ),
        decreases incoming@.len(),
    {
        let ghost k = all.len() - incoming@.len();
        proof {
            assert(incoming@[0] == all[k as int]);
            assert(all.take(k + 1) =~= all.take(k as int).push(all[k as int]));
            lemma_mapped_actions_push(all.take(k as int), all[k as int], player_id);
        }
        let event = incoming.remove(0);
        proof {
            assert(incoming@ =~= all.skip(k + 1));
            assert(event == all[k as int]);
        }
        match map_input_event(&event) {
            Some(intent) => {
                let ghost before = action_queue.view_queue();
                action_queue.add_action(intent.for_player(player_id));
                proof {
                    assert(before.push(
                        Action::PlayerAction { action: intent, player_id },
                    ) =~= before + seq![Action::PlayerAction { action: intent, player_id }]);
                    assert(action_queue.view_queue() =~= base + mapped_actions(
                        all.take(k + 1),
                        player_id,
                    ));
                }
            },
            None => {
                proof {
                    assert(mapped_actions(all.take(k as int), player_id) + Seq::<Action>::empty()
                        =~= mapped_actions(all.take(k as int), player_id));
                }
            },
        }
    }
    proof {
        assert(all.take(all.len() as int) =~= all);
    }
}

} // verus!
