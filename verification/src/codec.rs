//! The wire form of the lockstep protocol.
//!
//! Each frame a channel carries is the encoding of an ordered list of
//! [`NetworkMessage`] values: a 64-bit big-endian message count followed
//! by the messages, each a tag byte and its payload.  The encoding is
//! self-delimiting, lossless for fixed-point values and tick numbers,
//! and rejected as malformed on any unknown tag.  Decoding is proved to
//! be the exact inverse of encoding.

use crate::actions::{actions_wf, Action, Direction, PlayerAction, PlayerId};
use crate::fixed_point::{
    raw_of_u64, spec_u64_from_be_bytes, spec_u64_to_be_bytes, u64_from_be_bytes, u64_of_raw,
    u64_to_be_bytes, FixedPoint,
};
use crate::messages::{messages_wf, NetworkMessage, WorldLoad};
use vstd::prelude::*;

verus! {

/// Wire form of a 64-bit value: 8 bytes, big endian.
pub open spec fn enc_u64(x: u64) -> Seq<u8> {
    spec_u64_to_be_bytes(x)
}

/// Wire form of a fixed-point value: its canonical byte form.
pub open spec fn enc_fixed(f: FixedPoint) -> Seq<u8> {
    spec_u64_to_be_bytes(u64_of_raw(f.raw as int))
}

/// Wire form of a direction set: one byte holding the four flag bits.
pub open spec fn enc_direction(d: Direction) -> Seq<u8> {
    seq![d.bits]
}

/// Wire form of a player identifier.
pub open spec fn enc_player_id(p: PlayerId) -> Seq<u8> {
    enc_u64(p.0 as u64)
}

/// Wire form of a player intent: a tag byte and its payload.
pub open spec fn enc_player_action(a: PlayerAction) -> Seq<u8> {
    match a {
        PlayerAction::StartMoving { dir } => seq![0u8] + enc_direction(dir),
        PlayerAction::StopMoving { dir } => seq![1u8] + enc_direction(dir),
        PlayerAction::Jump => seq![2u8],
        PlayerAction::Cursor { x, y } => seq![3u8] + enc_fixed(x) + enc_fixed(y),
        PlayerAction::Fire => seq![4u8],
    }
}

/// Wire form of an action: a tag byte and its payload.
pub open spec fn enc_action(a: Action) -> Seq<u8> {
    match a {
        Action::PlayerAction { action, player_id } => seq![0u8] + enc_player_action(action)
            + enc_player_id(player_id),
        Action::SpawnPlayer { player_id } => seq![1u8] + enc_player_id(player_id),
    }
}

/// Wire form of the elements of an action list, in order.
pub open spec fn enc_action_seq(s: Seq<Action>) -> Seq<u8>
    decreases s.len(),
{
    if s.len() == 0 {
        Seq::<u8>::empty()
    } else {
        enc_action(s[0]) + enc_action_seq(s.skip(1))
    }
}

/// Wire form of an action list: its length, then its elements.
pub open spec fn enc_actions(s: Seq<Action>) -> Seq<u8> {
    enc_u64(s.len() as u64) + enc_action_seq(s)
}

/// Wire form of an opaque byte blob: its length, then its bytes.
pub open spec fn enc_bytes(b: Seq<u8>) -> Seq<u8> {
    enc_u64(b.len() as u64) + b
}

/// Wire form of one message: a tag byte and its payload.
pub open spec fn enc_message(m: NetworkMessage) -> Seq<u8> {
    match m {
        NetworkMessage::Ping(n) => seq![0u8] + enc_u64(n as u64),
        NetworkMessage::Pong(n) => seq![1u8] + enc_u64(n as u64),
        NetworkMessage::RequestWorldLoad => seq![2u8],
        NetworkMessage::World(wl) => seq![3u8] + enc_bytes(wl.scene@) + enc_u64(
            wl.last_simulated_tick as u64,
        ),
        NetworkMessage::SetClientConfig { player_id } => seq![4u8] + enc_player_id(player_id),
        NetworkMessage::FinalizedTick { tick, actions } => seq![5u8] + enc_u64(tick as u64)
            + enc_actions(actions@),
        NetworkMessage::ScheduleActions { actions } => seq![6u8] + enc_actions(actions@),
    }
}

/// Wire form of the elements of a message list, in order.
pub open spec fn enc_message_seq(s: Seq<NetworkMessage>) -> Seq<u8>
    decreases s.len(),
{
    if s.len() == 0 {
        Seq::<u8>::empty()
    } else {
        enc_message(s[0]) + enc_message_seq(s.skip(1))
    }
}

/// Wire form of one frame: the message count, then the messages.
pub open spec fn enc_frame(s: Seq<NetworkMessage>) -> Seq<u8> {
    enc_u64(s.len() as u64) + enc_message_seq(s)
}

/// Appending to an action list appends its wire form.
pub proof fn lemma_enc_action_seq_push(s: Seq<Action>, a: Action)
    ensures
        enc_action_seq(s.push(a)) == enc_action_seq(s) + enc_action(a),
    decreases s.len(),
{
    if s.len() == 0 {
        assert(s.push(a).skip(1) =~= Seq::<Action>::empty());
        assert(s.push(a)[0] == a);
        assert(enc_action_seq(Seq::<Action>::empty()) == Seq::<u8>::empty());
        assert(enc_action_seq(s.push(a)) == enc_action(a) + Seq::<u8>::empty());
        assert(enc_action(a) + Seq::<u8>::empty() =~= enc_action(a));
        assert(enc_action_seq(s) + enc_action(a) =~= enc_action(a));
    } else {
        assert(s.push(a).skip(1) =~= s.skip(1).push(a));
        lemma_enc_action_seq_push(s.skip(1), a);
        assert(s.push(a)[0] == s[0]);
        assert(enc_action_seq(s.push(a)) == enc_action(s[0]) + (enc_action_seq(s.skip(1))
            + enc_action(a)));
        assert(enc_action(s[0]) + (enc_action_seq(s.skip(1)) + enc_action(a)) =~= (enc_action(
            s[0],
        ) + enc_action_seq(s.skip(1))) + enc_action(a));
    }
}

/// Appending to a message list appends its wire form.
pub proof fn lemma_enc_message_seq_push(s: Seq<NetworkMessage>, m: NetworkMessage)
    ensures
        enc_message_seq(s.push(m)) == enc_message_seq(s) + enc_message(m),
    decreases s.len(),
{
    if s.len() == 0 {
        assert(s.push(m).skip(1) =~= Seq::<NetworkMessage>::empty());
        assert(s.push(m)[0] == m);
        assert(enc_message_seq(Seq::<NetworkMessage>::empty()) == Seq::<u8>::empty());
        assert(enc_message_seq(s.push(m)) == enc_message(m) + Seq::<u8>::empty());
        assert(enc_message(m) + Seq::<u8>::empty() =~= enc_message(m));
        assert(enc_message_seq(s) + enc_message(m) =~= enc_message(m));
    } else {
        assert(s.push(m).skip(1) =~= s.skip(1).push(m));
        lemma_enc_message_seq_push(s.skip(1), m);
        assert(s.push(m)[0] == s[0]);
        assert(enc_message_seq(s.push(m)) == enc_message(s[0]) + (enc_message_seq(s.skip(1))
            + enc_message(m)));
        assert(enc_message(s[0]) + (enc_message_seq(s.skip(1)) + enc_message(m)) =~= (enc_message(
            s[0],
        ) + enc_message_seq(s.skip(1))) + enc_message(m));
    }
}

// ---------------------------------------------------------------------
// Decoding, at the specification level: each function consumes a prefix
// of the byte sequence and returns the decoded value with the remaining
// suffix, or nothing when the bytes are malformed.
// ---------------------------------------------------------------------

/// Reads a 64-bit value.
pub open spec fn dec_u64(s: Seq<u8>) -> Option<(u64, Seq<u8>)> {
    if s.len() >= 8 {
        Some((spec_u64_from_be_bytes(s.take(8)), s.skip(8)))
    } else {
        None
    }
}

/// Reads a fixed-point value.
pub open spec fn dec_fixed(s: Seq<u8>) -> Option<(FixedPoint, Seq<u8>)> {
    match dec_u64(s) {
        Some((u, r)) => Some((FixedPoint { raw: raw_of_u64(u) as i64 }, r)),
        None => None,
    }
}

/// Reads a direction set; bytes outside the four flag bits are
/// malformed.
pub open spec fn dec_direction(s: Seq<u8>) -> Option<(Direction, Seq<u8>)> {
    if s.len() >= 1 && s[0] < 16 {
        Some((Direction { bits: s[0] }, s.skip(1)))
    } else {
        None
    }
}

/// Reads a player identifier; values beyond the machine's index range
/// are malformed.
pub open spec fn dec_player_id(s: Seq<u8>) -> Option<(PlayerId, Seq<u8>)> {
    match dec_u64(s) {
        Some((u, r)) => if u <= usize::MAX as u64 {
            Some((PlayerId(u as usize), r))
        } else {
            None
        },
        None => None,
    }
}

/// Reads a player intent; unknown tags are malformed.
pub open spec fn dec_player_action(s: Seq<u8>) -> Option<(PlayerAction, Seq<u8>)> {
    if s.len() < 1 {
        None
    } else {
        let r = s.skip(1);
        if s[0] == 0 {
            match dec_direction(r) {
                Some((dir, r2)) => Some((PlayerAction::StartMoving { dir }, r2)),
                None => None,
            }
        } else if s[0] == 1 {
            match dec_direction(r) {
                Some((dir, r2)) => Some((PlayerAction::StopMoving { dir }, r2)),
                None => None,
            }
        } else if s[0] == 2 {
            Some((PlayerAction::Jump, r))
        } else if s[0] == 3 {
            match dec_fixed(r) {
                Some((x, r2)) => match dec_fixed(r2) {
                    Some((y, r3)) => Some((PlayerAction::Cursor { x, y }, r3)),
                    None => None,
                },
                None => None,
            }
        } else if s[0] == 4 {
            Some((PlayerAction::Fire, r))
        } else {
            None
        }
    }
}

/// Reads one action; unknown tags are malformed.
pub open spec fn dec_action(s: Seq<u8>) -> Option<(Action, Seq<u8>)> {
    if s.len() < 1 {
        None
    } else {
        let r = s.skip(1);
        if s[0] == 0 {
            match dec_player_action(r) {
                Some((action, r2)) => match dec_player_id(r2) {
                    Some((player_id, r3)) => Some((Action::PlayerAction { action, player_id }, r3)),
                    None => None,
                },
                None => None,
            }
        } else if s[0] == 1 {
            match dec_player_id(r) {
                Some((player_id, r2)) => Some((Action::SpawnPlayer { player_id }, r2)),
                None => None,
            }
        } else {
            None
        }
    }
}

/// Reads exactly `n` actions.
pub open spec fn dec_action_n(s: Seq<u8>, n: nat) -> Option<(Seq<Action>, Seq<u8>)>
    decreases n,
{
    if n == 0 {
        Some((Seq::<Action>::empty(), s))
    } else {
        match dec_action(s) {
            Some((a, r)) => match dec_action_n(r, (n - 1) as nat) {
                Some((rest, r2)) => Some((seq![a] + rest, r2)),
                None => None,
            },
            None => None,
        }
    }
}

/// Reads a length-prefixed action list.
pub open spec fn dec_actions(s: Seq<u8>) -> Option<(Seq<Action>, Seq<u8>)> {
    match dec_u64(s) {
        Some((n, r)) => dec_action_n(r, n as nat),
        None => None,
    }
}

/// Reads a length-prefixed byte blob.
pub open spec fn dec_bytes(s: Seq<u8>) -> Option<(Seq<u8>, Seq<u8>)> {
    match dec_u64(s) {
        Some((n, r)) => if r.len() >= n {
            Some((r.take(n as int), r.skip(n as int)))
        } else {
            None
        },
        None => None,
    }
}

/// Reads one message; unknown tags are malformed.
pub open spec fn dec_message(s: Seq<u8>) -> Option<(crate::messages::MessageView, Seq<u8>)> {
    if s.len() < 1 {
        None
    } else {
        let r = s.skip(1);
        if s[0] == 0 {
            match dec_u64(r) {
                Some((n, r2)) => if n <= usize::MAX as u64 {
                    Some((crate::messages::MessageView::Ping(n as int), r2))
                } else {
                    None
                },
                None => None,
            }
        } else if s[0] == 1 {
            match dec_u64(r) {
                Some((n, r2)) => if n <= usize::MAX as u64 {
                    Some((crate::messages::MessageView::Pong(n as int), r2))
                } else {
                    None
                },
                None => None,
            }
        } else if s[0] == 2 {
            Some((crate::messages::MessageView::RequestWorldLoad, r))
        } else if s[0] == 3 {
            match dec_bytes(r) {
                Some((scene, r2)) => match dec_u64(r2) {
                    Some((t, r3)) => if t <= usize::MAX as u64 {
                        Some(
                            (
                                crate::messages::MessageView::World {
                                    scene,
                                    last_simulated_tick: t as int,
                                },
                                r3,
                            ),
                        )
                    } else {
                        None
                    },
                    None => None,
                },
                None => None,
            }
        } else if s[0] == 4 {
            match dec_player_id(r) {
                Some((player_id, r2)) => Some(
                    (crate::messages::MessageView::SetClientConfig { player_id }, r2),
                ),
                None => None,
            }
        } else if s[0] == 5 {
            match dec_u64(r) {
                Some((t, r2)) => if t <= usize::MAX as u64 {
                    match dec_actions(r2) {
                        Some((actions, r3)) => Some(
                            (
                                crate::messages::MessageView::FinalizedTick {
                                    tick: t as int,
                                    actions,
                                },
                                r3,
                            ),
                        )
,
                        None => None,
                    }
                } else {
                    None
                },
                None => None,
            }
        } else if s[0] == 6 {
            match dec_actions(r) {
                Some((actions, r2)) => Some(
                    (crate::messages::MessageView::ScheduleActions { actions }, r2),
                ),
                None => None,
            }
        } else {
            None
        }
    }
}

/// Reads exactly `n` messages.
pub open spec fn dec_message_n(s: Seq<u8>, n: nat) -> Option<
    (Seq<crate::messages::MessageView>, Seq<u8>),
>
    decreases n,
{
    if n == 0 {
        Some((Seq::<crate::messages::MessageView>::empty(), s))
    } else {
        match dec_message(s) {
            Some((m, r)) => match dec_message_n(r, (n - 1) as nat) {
                Some((rest, r2)) => Some((seq![m] + rest, r2)),
                None => None,
            },
            None => None,
        }
    }
}

/// Reads one frame: a message count and that many messages.
pub open spec fn dec_frame(s: Seq<u8>) -> Option<(Seq<crate::messages::MessageView>, Seq<u8>)> {
    match dec_u64(s) {
        Some((n, r)) => dec_message_n(r, n as nat),
        None => None,
    }
}

// ---------------------------------------------------------------------
// Decoding is the exact inverse of encoding.
// ---------------------------------------------------------------------

/// Reading a 64-bit value back from its wire form yields the value and
/// leaves the rest untouched.
pub proof fn lemma_dec_enc_u64(x: u64, rest: Seq<u8>)
    ensures
        dec_u64(enc_u64(x) + rest) == Some((x, rest)),
{
    crate::fixed_point::lemma_u64_be_bytes_round_trip();
    let s = enc_u64(x) + rest;
    assert(s.take(8) =~= enc_u64(x));
    assert(s.skip(8) =~= rest);
}

/// Reading a fixed-point value back from its wire form.
pub proof fn lemma_dec_enc_fixed(f: FixedPoint, rest: Seq<u8>)
    ensures
        dec_fixed(enc_fixed(f) + rest) == Some((f, rest)),
{
    let u = u64_of_raw(f.raw as int);
    lemma_dec_enc_u64(u, rest);
    crate::fixed_point::lemma_raw_u64_round_trip();
    assert(raw_of_u64(u) == f.raw as int);
}

/// Reading a direction set back from its wire form.
pub proof fn lemma_dec_enc_direction(d: Direction, rest: Seq<u8>)
    requires
        d.wf(),
    ensures
        dec_direction(enc_direction(d) + rest) == Some((d, rest)),
{
    let s = enc_direction(d) + rest;
    assert(s[0] == d.bits);
    assert(s.skip(1) =~= rest);
}

/// Reading a player identifier back from its wire form.
pub proof fn lemma_dec_enc_player_id(p: PlayerId, rest: Seq<u8>)
    ensures
        dec_player_id(enc_player_id(p) + rest) == Some((p, rest)),
{
    lemma_dec_enc_u64(p.0 as u64, rest);
}

/// Reading a player intent back from its wire form.
pub proof fn lemma_dec_enc_player_action(a: PlayerAction, rest: Seq<u8>)
    requires
        a.wf(),
    ensures
        dec_player_action(enc_player_action(a) + rest) == Some((a, rest)),
{
    let s = enc_player_action(a) + rest;
    match a {
        PlayerAction::StartMoving { dir } => {
            assert(s[0] == 0);
            assert(s.skip(1) =~= enc_direction(dir) + rest);
            lemma_dec_enc_direction(dir, rest);
        },
        PlayerAction::StopMoving { dir } => {
            assert(s[0] == 1);
            assert(s.skip(1) =~= enc_direction(dir) + rest);
            lemma_dec_enc_direction(dir, rest);
        },
        PlayerAction::Jump => {
            assert(s[0] == 2);
            assert(s.skip(1) =~= rest);
        },
        PlayerAction::Cursor { x, y } => {
            assert(s[0] == 3);
            assert(s.skip(1) =~= enc_fixed(x) + (enc_fixed(y) + rest));
            lemma_dec_enc_fixed(x, enc_fixed(y) + rest);
            lemma_dec_enc_fixed(y, rest);
        },
        PlayerAction::Fire => {
            assert(s[0] == 4);
            assert(s.skip(1) =~= rest);
        },
    }
}

/// Reading an action back from its wire form.
pub proof fn lemma_dec_enc_action(a: Action, rest: Seq<u8>)
    requires
        a.wf(),
    ensures
        dec_action(enc_action(a) + rest) == Some((a, rest)),
{
    let s = enc_action(a) + rest;
    match a {
        Action::PlayerAction { action, player_id } => {
            assert(s[0] == 0);
            assert(s.skip(1) =~= enc_player_action(action) + (enc_player_id(player_id) + rest));
            lemma_dec_enc_player_action(action, enc_player_id(player_id) + rest);
            lemma_dec_enc_player_id(player_id, rest);
        },
        Action::SpawnPlayer { player_id } => {
            assert(s[0] == 1);
            assert(s.skip(1) =~= enc_player_id(player_id) + rest);
            lemma_dec_enc_player_id(player_id, rest);
        },
    }
}

/// Reading an action list's elements back from their wire form.
pub proof fn lemma_dec_enc_action_seq(s: Seq<Action>, rest: Seq<u8>)
    requires
        actions_wf(s),
    ensures
        dec_action_n(enc_action_seq(s) + rest, s.len()) == Some((s, rest)),
    decreases s.len(),
{
    if s.len() == 0 {
        assert(enc_action_seq(s) + rest =~= rest);
        assert(dec_action_n(rest, 0) == Some((Seq::<Action>::empty(), rest)));
        assert(s =~= Seq::<Action>::empty());
    } else {
        let tail = s.skip(1);
        assert(enc_action_seq(s) + rest =~= enc_action(s[0]) + (enc_action_seq(tail) + rest));
        assert(s[0].wf());
        lemma_dec_enc_action(s[0], enc_action_seq(tail) + rest);
        assert(actions_wf(tail)) by {
            assert forall|i: int| 0 <= i < tail.len() implies (#[trigger] tail[i]).wf() by {
                assert(tail[i] == s[i + 1]);
            }
        }
        lemma_dec_enc_action_seq(tail, rest);
        assert(seq![s[0]] + tail =~= s);
    }
}

/// Reading a whole action list back from its wire form (the
/// round-trip law for action lists).
pub proof fn lemma_dec_enc_actions(s: Seq<Action>, rest: Seq<u8>)
    requires
        actions_wf(s),
        s.len() <= usize::MAX,
    ensures
        dec_actions(enc_actions(s) + rest) == Some((s, rest)),
{
    assert(enc_actions(s) + rest =~= enc_u64(s.len() as u64) + (enc_action_seq(s) + rest));
    lemma_dec_enc_u64(s.len() as u64, enc_action_seq(s) + rest);
    lemma_dec_enc_action_seq(s, rest);
}

/// Reading a byte blob back from its wire form.
pub proof fn lemma_dec_enc_bytes(b: Seq<u8>, rest: Seq<u8>)
    requires
        b.len() <= usize::MAX,
    ensures
        dec_bytes(enc_bytes(b) + rest) == Some((b, rest)),
{
    assert(enc_bytes(b) + rest =~= enc_u64(b.len() as u64) + (b + rest));
    lemma_dec_enc_u64(b.len() as u64, b + rest);
    assert((b + rest).take(b.len() as int) =~= b);
    assert((b + rest).skip(b.len() as int) =~= rest);
}

/// Reading one message back from its wire form.
pub proof fn lemma_dec_enc_message(m: NetworkMessage, rest: Seq<u8>)
    requires
        m.wf(),
    ensures
        dec_message(enc_message(m) + rest) == Some((m@, rest)),
{
    let s = enc_message(m) + rest;
    match m {
        NetworkMessage::Ping(n) => {
            assert(s[0] == 0);
            assert(s.skip(1) =~= enc_u64(n as u64) + rest);
            lemma_dec_enc_u64(n as u64, rest);
        },
        NetworkMessage::Pong(n) => {
            assert(s[0] == 1);
            assert(s.skip(1) =~= enc_u64(n as u64) + rest);
            lemma_dec_enc_u64(n as u64, rest);
        },
        NetworkMessage::RequestWorldLoad => {
            assert(s[0] == 2);
            assert(s.skip(1) =~= rest);
        },
        NetworkMessage::World(wl) => {
            assert(s[0] == 3);
            assert(s.skip(1) =~= enc_bytes(wl.scene@) + (enc_u64(wl.last_simulated_tick as u64)
                + rest));
            lemma_dec_enc_bytes(wl.scene@, enc_u64(wl.last_simulated_tick as u64) + rest);
            lemma_dec_enc_u64(wl.last_simulated_tick as u64, rest);
        },
        NetworkMessage::SetClientConfig { player_id } => {
            assert(s[0] == 4);
            assert(s.skip(1) =~= enc_player_id(player_id) + rest);
            lemma_dec_enc_player_id(player_id, rest);
        },
        NetworkMessage::FinalizedTick { tick, actions } => {
            assert(s[0] == 5);
            assert(s.skip(1) =~= enc_u64(tick as u64) + (enc_actions(actions@) + rest));
            lemma_dec_enc_u64(tick as u64, enc_actions(actions@) + rest);
            lemma_dec_enc_actions(actions@, rest);
        },
        NetworkMessage::ScheduleActions { actions } => {
            assert(s[0] == 6);
            assert(s.skip(1) =~= enc_actions(actions@) + rest);
            lemma_dec_enc_actions(actions@, rest);
        },
    }
}

/// Reading a message list's elements back from their wire form.
pub proof fn lemma_dec_enc_message_seq(s: Seq<NetworkMessage>, rest: Seq<u8>)
    requires
        messages_wf(s),
    ensures
        dec_message_n(enc_message_seq(s) + rest, s.len()) == Some(
            (crate::messages::message_views(s), rest),
        ),
    decreases s.len(),
{
    if s.len() == 0 {
        assert(enc_message_seq(s) + rest =~= rest);
        assert(crate::messages::message_views(s) =~= Seq::<crate::messages::MessageView>::empty());
    } else {
        let tail = s.skip(1);
        assert(enc_message_seq(s) + rest =~= enc_message(s[0]) + (enc_message_seq(tail) + rest));
        assert(s[0].wf());
        lemma_dec_enc_message(s[0], enc_message_seq(tail) + rest);
        assert(messages_wf(tail)) by {
            assert forall|i: int| 0 <= i < tail.len() implies (#[trigger] tail[i]).wf() by {
                assert(tail[i] == s[i + 1]);
            }
        }
        lemma_dec_enc_message_seq(tail, rest);
        assert(seq![s[0]@] + crate::messages::message_views(tail) =~= crate::messages::message_views(
            s,
        ));
    }
}

/// Reading a whole frame back from its wire form: the round-trip law
/// of the wire protocol.
pub proof fn lemma_dec_enc_frame(s: Seq<NetworkMessage>, rest: Seq<u8>)
    requires
        messages_wf(s),
        s.len() <= usize::MAX,
    ensures
        dec_frame(enc_frame(s) + rest) == Some((crate::messages::message_views(s), rest)),
{
    assert(enc_frame(s) + rest =~= enc_u64(s.len() as u64) + (enc_message_seq(s) + rest));
    lemma_dec_enc_u64(s.len() as u64, enc_message_seq(s) + rest);
    lemma_dec_enc_message_seq(s, rest);
}

/// Appends the wire form of a 64-bit value.
fn encode_u64_into(out: &mut Vec<u8>, x: u64)
    ensures
        final(out)@ == old(out)@ + enc_u64(x),
{
    let mut b = u64_to_be_bytes(x);
    out.append(&mut b);
}

/// Appends the wire form of a fixed-point value.
fn encode_fixed_into(out: &mut Vec<u8>, f: FixedPoint)
    ensures
        final(out)@ == old(out)@ + enc_fixed(f),
{
    let u: u64 = crate::fixed_point::u64_of_raw_exec(f.raw);
    encode_u64_into(out, u);
}

/// Appends the wire form of a player intent.
fn encode_player_action_into(out: &mut Vec<u8>, a: &PlayerAction)
    ensures
        final(out)@ == old(out)@ + enc_player_action(*a),
{
    match a {
        PlayerAction::StartMoving { dir } => {
            out.push(0u8);
            out.push(dir.bits);
            proof {
                assert(out@ =~= old(out)@ + enc_player_action(*a));
            }
        },
        PlayerAction::StopMoving { dir } => {
            out.push(1u8);
            out.push(dir.bits);
            proof {
                assert(out@ =~= old(out)@ + enc_player_action(*a));
            }
        },
        PlayerAction::Jump => {
            out.push(2u8);
            proof {
                assert(out@ =~= old(out)@ + enc_player_action(*a));
            }
        },
        PlayerAction::Cursor { x, y } => {
            out.push(3u8);
            encode_fixed_into(out, *x);
            encode_fixed_into(out, *y);
            proof {
                assert(out@ =~= old(out)@ + enc_player_action(*a));
            }
        },
        PlayerAction::Fire => {
            out.push(4u8);
            proof {
                assert(out@ =~= old(out)@ + enc_player_action(*a));
            }
        },
    }
}

/// Appends the wire form of one action.
fn encode_action_into(out: &mut Vec<u8>, a: &Action)
    ensures
        final(out)@ == old(out)@ + enc_action(*a),
{
    match a {
        Action::PlayerAction { action, player_id } => {
            out.push(0u8);
            encode_player_action_into(out, action);
            encode_u64_into(out, player_id.0 as u64);
            proof {
                assert(out@ =~= old(out)@ + enc_action(*a));
            }
        },
        Action::SpawnPlayer { player_id } => {
            out.push(1u8);
            encode_u64_into(out, player_id.0 as u64);
            proof {
                assert(out@ =~= old(out)@ + enc_action(*a));
            }
        },
    }
}

/// Appends the wire form of an action list.
fn encode_actions_into(out: &mut Vec<u8>, actions: &Vec<Action>)
    ensures
        final(out)@ == old(out)@ + enc_actions(actions@),
{
    encode_u64_into(out, actions.len() as u64);
    let ghost base = out@;
    let mut i: usize = 0;
    while i < actions.len()
        invariant
            0 <= i <= actions.len(),
            out@ == base + enc_action_seq(actions@.take(i as int)),
        decreases actions.len() - i,
    {
        proof {
            lemma_enc_action_seq_push(actions@.take(i as int), actions@[i as int]);
            assert(actions@.take(i as int).push(actions@[i as int]) =~= actions@.take(i + 1));
        }
        encode_action_into(out, &actions[i]);
        proof {
            assert(out@ =~= base + enc_action_seq(actions@.take(i + 1)));
        }
        i = i + 1;
    }
    proof {
        assert(actions@.take(actions@.len() as int) =~= actions@);
        assert(out@ =~= old(out)@ + enc_actions(actions@));
    }
}

/// Appends the wire form of an opaque byte blob.
fn encode_bytes_into(out: &mut Vec<u8>, bytes: &Vec<u8>)
    ensures
        final(out)@ == old(out)@ + enc_bytes(bytes@),
{
    encode_u64_into(out, bytes.len() as u64);
    let mut copy = clone_bytes(bytes);
    out.append(&mut copy);
    proof {
        assert(out@ =~= old(out)@ + enc_bytes(bytes@));
    }
}

/// A copy of a byte vector.
pub fn clone_bytes(v: &Vec<u8>) -> (r: Vec<u8>)
    ensures
        r@ == v@,
        v@.len() <= usize::MAX,
{
    let mut out: Vec<u8> = Vec::new();
    let mut i: usize = 0;
    while i < v.len()
        invariant
            0 <= i <= v.len(),
            out@ == v@.take(i as int),
        decreases v.len() - i,
    {
        out.push(v[i]);
        proof {
            assert(out@ =~= v@.take(i + 1));
        }
        i = i + 1;
    }
    proof {
        assert(v@.take(v@.len() as int) =~= v@);
    }
    out
}

/// Appends the wire form of one message.
fn encode_message_into(out: &mut Vec<u8>, m: &NetworkMessage)
    ensures
        final(out)@ == old(out)@ + enc_message(*m),
{
    match m {
        NetworkMessage::Ping(n) => {
            out.push(0u8);
            encode_u64_into(out, *n as u64);
            proof {
                assert(out@ =~= old(out)@ + enc_message(*m));
            }
        },
        NetworkMessage::Pong(n) => {
            out.push(1u8);
            encode_u64_into(out, *n as u64);
            proof {
                assert(out@ =~= old(out)@ + enc_message(*m));
            }
        },
        NetworkMessage::RequestWorldLoad => {
            out.push(2u8);
            proof {
                assert(out@ =~= old(out)@ + enc_message(*m));
            }
        },
        NetworkMessage::World(wl) => {
            out.push(3u8);
            encode_bytes_into(out, &wl.scene);
            encode_u64_into(out, wl.last_simulated_tick as u64);
            proof {
                assert(out@ =~= old(out)@ + enc_message(*m));
            }
        },
        NetworkMessage::SetClientConfig { player_id } => {
            out.push(4u8);
            encode_u64_into(out, player_id.0 as u64);
            proof {
                assert(out@ =~= old(out)@ + enc_message(*m));
            }
        },
        NetworkMessage::FinalizedTick { tick, actions } => {
            out.push(5u8);
            encode_u64_into(out, *tick as u64);
            encode_actions_into(out, actions);
            proof {
                assert(out@ =~= old(out)@ + enc_message(*m));
            }
        },
        NetworkMessage::ScheduleActions { actions } => {
            out.push(6u8);
            encode_actions_into(out, actions);
            proof {
                assert(out@ =~= old(out)@ + enc_message(*m));
            }
        },
    }
}

/// Records that a vector's mathematical length fits the machine's
/// index range.
fn vec_len_bound<T>(v: &Vec<T>)
    ensures
        v@.len() <= usize::MAX,
{
    let n: usize = v.len();
    proof {
        assert(n == v@.len());
    }
}

/// Reads a 64-bit value at `pos`.
pub(crate) fn decode_u64(buf: &Vec<u8>, pos: usize) -> (r: Option<(u64, usize)>)
    requires
        pos <= buf@.len(),
    ensures
        r matches Some((x, p)) ==> pos <= p <= buf@.len() && dec_u64(buf@.skip(pos as int))
            == Some((x, buf@.skip(p as int))),
        r is None ==> dec_u64(buf@.skip(pos as int)) is None,
{
    if buf.len() - pos >= 8 {
        let sub: &[u8] = vstd::slice::slice_subrange(buf.as_slice(), pos, pos + 8);
        let x: u64 = u64_from_be_bytes(sub);
        proof {
            assert(buf@.skip(pos as int).take(8) =~= buf@.subrange(pos as int, pos + 8));
            assert(buf@.skip(pos as int).skip(8) =~= buf@.skip(pos + 8));
        }
        Some((x, pos + 8))
    } else {
        None
    }
}

/// Reads a fixed-point value at `pos`.
pub(crate) fn decode_fixed(buf: &Vec<u8>, pos: usize) -> (r: Option<(FixedPoint, usize)>)
    requires
        pos <= buf@.len(),
    ensures
        r matches Some((f, p)) ==> pos <= p <= buf@.len() && dec_fixed(buf@.skip(pos as int))
            == Some((f, buf@.skip(p as int))),
        r is None ==> dec_fixed(buf@.skip(pos as int)) is None,
{
    match decode_u64(buf, pos) {
        Some((u, p)) => Some((FixedPoint::from_raw(crate::fixed_point::raw_of_u64_exec(u)), p)),
        None => None,
    }
}

/// Reads a direction set at `pos`.
fn decode_direction(buf: &Vec<u8>, pos: usize) -> (r: Option<(Direction, usize)>)
    requires
        pos <= buf@.len(),
    ensures
        r matches Some((d, p)) ==> pos <= p <= buf@.len() && dec_direction(buf@.skip(pos as int))
            == Some((d, buf@.skip(p as int))) && d.wf(),
        r is None ==> dec_direction(buf@.skip(pos as int)) is None,
{
    if pos < buf.len() && buf[pos] < 16 {
        proof {
            assert(buf@.skip(pos as int)[0] == buf@[pos as int]);
            assert(buf@.skip(pos as int).skip(1) =~= buf@.skip(pos + 1));
        }
        Some((Direction { bits: buf[pos] }, pos + 1))
    } else {
        None
    }
}

/// Reads a player identifier at `pos`.
fn decode_player_id(buf: &Vec<u8>, pos: usize) -> (r: Option<(PlayerId, usize)>)
    requires
        pos <= buf@.len(),
    ensures
        r matches Some((pid, p)) ==> pos <= p <= buf@.len() && dec_player_id(
            buf@.skip(pos as int),
        ) == Some((pid, buf@.skip(p as int))),
        r is None ==> dec_player_id(buf@.skip(pos as int)) is None,
{
    match decode_u64(buf, pos) {
        Some((u, p)) => {
            if u <= usize::MAX as u64 {
                Some((PlayerId(u as usize), p))
            } else {
                None
            }
        },
        None => None,
    }
}

/// Reads a player intent at `pos`.
fn decode_player_action(buf: &Vec<u8>, pos: usize) -> (r: Option<(PlayerAction, usize)>)
    requires
        pos <= buf@.len(),
    ensures
        r matches Some((a, p)) ==> pos <= p <= buf@.len() && dec_player_action(
            buf@.skip(pos as int),
        ) == Some((a, buf@.skip(p as int))) && a.wf(),
        r is None ==> dec_player_action(buf@.skip(pos as int)) is None,
{
    if pos >= buf.len() {
        return None;
    }
    let tag: u8 = buf[pos];
    let p1: usize = pos + 1;
    proof {
        assert(buf@.skip(pos as int)[0] == tag);
        assert(buf@.skip(pos as int).skip(1) =~= buf@.skip(p1 as int));
    }
    if tag == 0 {
        match decode_direction(buf, p1) {
            Some((dir, p2)) => Some((PlayerAction::StartMoving { dir }, p2)),
            None => None,
        }
    } else if tag == 1 {
        match decode_direction(buf, p1) {
            Some((dir, p2)) => Some((PlayerAction::StopMoving { dir }, p2)),
            None => None,
        }
    } else if tag == 2 {
        Some((PlayerAction::Jump, p1))
    } else if tag == 3 {
        match decode_fixed(buf, p1) {
            Some((x, p2)) => match decode_fixed(buf, p2) {
                Some((y, p3)) => Some((PlayerAction::Cursor { x, y }, p3)),
                None => None,
            },
            None => None,
        }
    } else if tag == 4 {
        Some((PlayerAction::Fire, p1))
    } else {
        None
    }
}

/// Reads one action at `pos`.
fn decode_action(buf: &Vec<u8>, pos: usize) -> (r: Option<(Action, usize)>)
    requires
        pos <= buf@.len(),
    ensures
        r matches Some((a, p)) ==> pos <= p <= buf@.len() && dec_action(buf@.skip(pos as int))
            == Some((a, buf@.skip(p as int))) && a.wf(),
        r is None ==> dec_action(buf@.skip(pos as int)) is None,
{
    if pos >= buf.len() {
        return None;
    }
    let tag: u8 = buf[pos];
    let p1: usize = pos + 1;
    proof {
        assert(buf@.skip(pos as int)[0] == tag);
        assert(buf@.skip(pos as int).skip(1) =~= buf@.skip(p1 as int));
    }
    if tag == 0 {
        match decode_player_action(buf, p1) {
            Some((action, p2)) => match decode_player_id(buf, p2) {
                Some((player_id, p3)) => Some((Action::PlayerAction { action, player_id }, p3)),
                None => None,
            },
            None => None,
        }
    } else if tag == 1 {
        match decode_player_id(buf, p1) {
            Some((player_id, p2)) => Some((Action::SpawnPlayer { player_id }, p2)),
            None => None,
        }
    } else {
        None
    }
}

/// Reads exactly `n` actions at `pos`.
fn decode_action_n(buf: &Vec<u8>, pos: usize, n: u64) -> (r: Option<(Vec<Action>, usize)>)
    requires
        pos <= buf@.len(),
    ensures
        r matches Some((v, p)) ==> pos <= p <= buf@.len() && dec_action_n(
            buf@.skip(pos as int),
            n as nat,
        ) == Some((v@, buf@.skip(p as int))) && actions_wf(v@) && v@.len() <= usize::MAX,
        r is None ==> dec_action_n(buf@.skip(pos as int), n as nat) is None,
{
    let mut out: Vec<Action> = Vec::new();
    let mut p: usize = pos;
    let mut i: u64 = 0;
    while i < n
        invariant
            pos <= p <= buf@.len(),
            0 <= i <= n,
            out@.len() == i,
            actions_wf(out@),
            match dec_action_n(buf@.skip(p as int), (n - i) as nat) {
                Some((s2, r2)) => dec_action_n(buf@.skip(pos as int), n as nat) == Some(
                    (out@ + s2, r2),
                ),
                None => dec_action_n(buf@.skip(pos as int), n as nat) is None,
            },
        decreases n - i,
    {
        match decode_action(buf, p) {
            Some((a, p2)) => {
                proof {
                    let ghost before = out@;
                    assert(dec_action(buf@.skip(p as int)) == Some((a, buf@.skip(p2 as int))));
                    match dec_action_n(buf@.skip(p2 as int), (n - i - 1) as nat) {
                        Some((s2, r2)) => {
                            assert(dec_action_n(buf@.skip(p as int), (n - i) as nat) == Some(
                                (seq![a] + s2, r2),
                            ));
                            assert(before + (seq![a] + s2) =~= before.push(a) + s2);
                        },
                        None => {
                            assert(dec_action_n(buf@.skip(p as int), (n - i) as nat) is None);
                        },
                    }
                }
                out.push(a);
                p = p2;
                i = i + 1;
            },
            None => {
                proof {
                    assert(dec_action_n(buf@.skip(p as int), (n - i) as nat) is None);
                }
                return None;
            },
        }
    }
    vec_len_bound(&out);
    proof {
        assert(dec_action_n(buf@.skip(p as int), 0) == Some(
            (Seq::<Action>::empty(), buf@.skip(p as int)),
        ));
        assert(out@ + Seq::<Action>::empty() =~= out@);
    }
    Some((out, p))
}

/// Reads a length-prefixed byte blob at `pos`.
fn decode_bytes(buf: &Vec<u8>, pos: usize) -> (r: Option<(Vec<u8>, usize)>)
    requires
        pos <= buf@.len(),
    ensures
        r matches Some((v, p)) ==> pos <= p <= buf@.len() && dec_bytes(buf@.skip(pos as int))
            == Some((v@, buf@.skip(p as int))) && v@.len() <= usize::MAX,
        r is None ==> dec_bytes(buf@.skip(pos as int)) is None,
{
    vec_len_bound(buf);
    match decode_u64(buf, pos) {
        Some((n, p)) => {
            if n <= (buf.len() - p) as u64 {
                let count: usize = n as usize;
                let mut v: Vec<u8> = Vec::new();
                let mut j: usize = 0;
                while j < count
                    invariant
                        0 <= j <= count,
                        p + count <= buf@.len(),
                        buf@.len() <= usize::MAX,
                        v@ == buf@.subrange(p as int, p + j),
                    decreases count - j,
                {
                    v.push(buf[p + j]);
                    proof {
                        assert(v@ =~= buf@.subrange(p as int, p + j + 1));
                    }
                    j = j + 1;
                }
                proof {
                    assert(buf@.skip(p as int).take(n as int) =~= buf@.subrange(
                        p as int,
                        p + count,
                    ));
                    assert(buf@.skip(p as int).skip(n as int) =~= buf@.skip(p + count));
                }
                Some((v, p + count))
            } else {
                proof {
                    assert(buf@.skip(p as int).len() < n);
                }
                None
            }
        },
        None => None,
    }
}

/// Reads one message at `pos`.
fn decode_message(buf: &Vec<u8>, pos: usize) -> (r: Option<(NetworkMessage, usize)>)
    requires
        pos <= buf@.len(),
    ensures
        r matches Some((m, p)) ==> pos <= p <= buf@.len() && dec_message(buf@.skip(pos as int))
            == Some((m@, buf@.skip(p as int))) && m.wf(),
        r is None ==> dec_message(buf@.skip(pos as int)) is None,
{
    if pos >= buf.len() {
        return None;
    }
    let tag: u8 = buf[pos];
    let p1: usize = pos + 1;
    proof {
        assert(buf@.skip(pos as int)[0] == tag);
        assert(buf@.skip(pos as int).skip(1) =~= buf@.skip(p1 as int));
    }
    if tag == 0 {
        match decode_u64(buf, p1) {
            Some((n, p2)) => {
                if n <= usize::MAX as u64 {
                    Some((NetworkMessage::Ping(n as usize), p2))
                } else {
                    None
                }
            },
            None => None,
        }
    } else if tag == 1 {
        match decode_u64(buf, p1) {
            Some((n, p2)) => {
                if n <= usize::MAX as u64 {
                    Some((NetworkMessage::Pong(n as usize), p2))
                } else {
                    None
                }
            },
            None => None,
        }
    } else if tag == 2 {
        Some((NetworkMessage::RequestWorldLoad, p1))
    } else if tag == 3 {
        match decode_bytes(buf, p1) {
            Some((scene, p2)) => match decode_u64(buf, p2) {
                Some((t, p3)) => {
                    if t <= usize::MAX as u64 {
                        Some(
                            (
                                NetworkMessage::World(
                                    WorldLoad { scene, last_simulated_tick: t as usize },
                                ),
                                p3,
                            ),
                        )
                    } else {
                        None
                    }
                },
                None => None,
            },
            None => None,
        }
    } else if tag == 4 {
        match decode_player_id(buf, p1) {
            Some((player_id, p2)) => Some((NetworkMessage::SetClientConfig { player_id }, p2)),
            None => None,
        }
    } else if tag == 5 {
        match decode_u64(buf, p1) {
            Some((t, p2)) => {
                if t <= usize::MAX as u64 {
                    match decode_u64(buf, p2) {
                        Some((count, p3)) => {
                            match decode_action_n(buf, p3, count) {
                                Some((actions, p4)) => {
                                    proof {
                                        assert(dec_actions(buf@.skip(p2 as int)) == Some(
                                            (actions@, buf@.skip(p4 as int)),
                                        ));
                                    }
                                    Some(
                                        (
                                            NetworkMessage::FinalizedTick {
                                                tick: t as usize,
                                                actions,
                                            },
                                            p4,
                                        ),
                                    )
                                },
                                None => {
                                    proof {
                                        assert(dec_actions(buf@.skip(p2 as int)) is None);
                                    }
                                    None
                                },
                            }
                        },
                        None => None,
                    }
                } else {
                    None
                }
            },
            None => None,
        }
    } else if tag == 6 {
        match decode_u64(buf, p1) {
            Some((count, p2)) => {
                match decode_action_n(buf, p2, count) {
                    Some((actions, p3)) => {
                        proof {
                            assert(dec_actions(buf@.skip(p1 as int)) == Some(
                                (actions@, buf@.skip(p3 as int)),
                            ));
                        }
                        Some((NetworkMessage::ScheduleActions { actions }, p3))
                    },
                    None => {
                        proof {
                            assert(dec_actions(buf@.skip(p1 as int)) is None);
                        }
                        None
                    },
                }
            },
            None => None,
        }
    } else {
        None
    }
}

/// Reads one whole frame.  `None` means the bytes are malformed: not a
/// frame encoding, or trailing bytes follow it.
pub fn decode_frame(buf: &Vec<u8>) -> (r: Option<Vec<NetworkMessage>>)
    ensures
        r matches Some(v) ==> {
            &&& dec_frame(buf@) matches Some(pr) && pr.0 == crate::messages::message_views(v@)
                && pr.1.len() == 0
            &&& messages_wf(v@)
            &&& v@.len() <= usize::MAX
        },
        r is None ==> match dec_frame(buf@) {
            Some(pr) => pr.1.len() != 0,
            None => true,
        },
{
    proof {
        assert(buf@.skip(0) =~= buf@);
    }
    match decode_u64(buf, 0) {
        Some((n, p0)) => {
            let mut out: Vec<NetworkMessage> = Vec::new();
            let mut p: usize = p0;
            let mut i: u64 = 0;
            while i < n
                invariant
                    p <= buf@.len(),
                    0 <= i <= n,
                    out@.len() == i,
                    messages_wf(out@),
                    dec_u64(buf@) == Some((n, buf@.skip(p0 as int))),
                    match dec_message_n(buf@.skip(p as int), (n - i) as nat) {
                        Some((s2, r2)) => dec_message_n(buf@.skip(p0 as int), n as nat) == Some(
                            (crate::messages::message_views(out@) + s2, r2),
                        ),
                        None => dec_message_n(buf@.skip(p0 as int), n as nat) is None,
                    },
                decreases n - i,
            {
                match decode_message(buf, p) {
                    Some((m, p2)) => {
                        proof {
                            let ghost before = out@;
                            match dec_message_n(buf@.skip(p2 as int), (n - i - 1) as nat) {
                                Some((s2, r2)) => {
                                    assert(dec_message_n(buf@.skip(p as int), (n - i) as nat)
                                        == Some((seq![m@] + s2, r2)));
                                    assert(crate::messages::message_views(before) + (seq![m@] + s2)
                                        =~= crate::messages::message_views(before.push(m)) + s2);
                                },
                                None => {
                                    assert(dec_message_n(
                                        buf@.skip(p as int),
                                        (n - i) as nat,
                                    ) is None);
                                },
                            }
                        }
                        out.push(m);
                        p = p2;
                        i = i + 1;
                    },
                    None => {
                        proof {
                            assert(dec_message_n(buf@.skip(p as int), (n - i) as nat) is None);
                        }
                        return None;
                    },
                }
            }
            if p != buf.len() {
                proof {
                    assert(dec_message_n(buf@.skip(p as int), 0) == Some(
                        (Seq::<crate::messages::MessageView>::empty(), buf@.skip(p as int)),
                    ));
                    assert(crate::messages::message_views(out@)
                        + Seq::<crate::messages::MessageView>::empty() =~= crate::messages::message_views(
                        out@,
                    ));
                    assert(buf@.skip(p as int).len() != 0);
                }
                return None;
            }
            vec_len_bound(&out);
            proof {
                assert(dec_message_n(buf@.skip(p as int), 0) == Some(
                    (Seq::<crate::messages::MessageView>::empty(), buf@.skip(p as int)),
                ));
                assert(crate::messages::message_views(out@)
                    + Seq::<crate::messages::MessageView>::empty() =~= crate::messages::message_views(
                    out@,
                ));
                assert(buf@.skip(p as int).len() == 0);
            }
            Some(out)
        },
        None => None,
    }
}

/// The wire form of a whole frame: message count, then the messages in
/// order.
pub fn encode_frame(messages: &Vec<NetworkMessage>) -> (r: Vec<u8>)
    ensures
        r@ == enc_frame(messages@),
        messages@.len() <= usize::MAX,
{
    let mut out: Vec<u8> = Vec::new();
    encode_u64_into(&mut out, messages.len() as u64);
    let ghost base = out@;
    let mut i: usize = 0;
    while i < messages.len()
        invariant
            0 <= i <= messages.len(),
            out@ == base + enc_message_seq(messages@.take(i as int)),
        decreases messages.len() - i,
    {
        proof {
            lemma_enc_message_seq_push(messages@.take(i as int), messages@[i as int]);
            assert(messages@.take(i as int).push(messages@[i as int]) =~= messages@.take(i + 1));
        }
        encode_message_into(&mut out, &messages[i]);
        proof {
            assert(out@ =~= base + enc_message_seq(messages@.take(i + 1)));
        }
        i = i + 1;
    }
    proof {
        assert(messages@.take(messages@.len() as int) =~= messages@);
        assert(out@ =~= enc_frame(messages@));
    }
    out
}

} // verus!
