use lockstep_core::actions::{Action, Direction, PlayerAction, PlayerId};
use lockstep_core::codec::{decode_frame, encode_frame};
use lockstep_core::fixed_point::FixedPoint;
use lockstep_core::messages::{NetworkMessage, WorldLoad};

fn sample_actions() -> Vec<Action> {
    vec![
        PlayerAction::StartMoving { dir: Direction::right() }.for_player(PlayerId(0)),
        PlayerAction::StopMoving { dir: Direction::left().or(Direction::up()) }
            .for_player(PlayerId(1)),
        PlayerAction::Jump.for_player(PlayerId(2)),
        PlayerAction::Cursor {
            x: FixedPoint::from_raw(-123456789),
            y: FixedPoint::from_raw(987654321),
        }
        .for_player(PlayerId(3)),
        PlayerAction::Fire.for_player(PlayerId(4)),
        Action::SpawnPlayer { player_id: PlayerId(9) },
    ]
}

#[test]
fn action_list_round_trip() {
    // Serialization followed by deserialization yields a list equal in
    // order and content.
    let msgs = vec![NetworkMessage::ScheduleActions { actions: sample_actions() }];
    let bytes = encode_frame(&msgs);
    let decoded = decode_frame(&bytes).expect("frame should decode");
    assert_eq!(decoded.len(), 1);
    match &decoded[0] {
        NetworkMessage::ScheduleActions { actions } => {
            assert_eq!(actions.as_slice(), sample_actions().as_slice());
        }
        other => panic!("unexpected message {:?}", other),
    }
}

#[test]
fn every_message_round_trips() {
    let msgs = vec![
        NetworkMessage::Ping(7),
        NetworkMessage::Pong(7),
        NetworkMessage::RequestWorldLoad,
        NetworkMessage::World(WorldLoad { scene: vec![1, 2, 3, 255], last_simulated_tick: 42 }),
        NetworkMessage::SetClientConfig { player_id: PlayerId(3) },
        NetworkMessage::FinalizedTick { tick: 11, actions: sample_actions() },
        NetworkMessage::ScheduleActions { actions: vec![] },
    ];
    let bytes = encode_frame(&msgs);
    let decoded = decode_frame(&bytes).expect("frame should decode");
    assert_eq!(decoded.as_slice(), msgs.as_slice());
}

#[test]
fn empty_frame_round_trips() {
    let msgs: Vec<NetworkMessage> = vec![];
    let bytes = encode_frame(&msgs);
    assert_eq!(bytes.len(), 8);
    let decoded = decode_frame(&bytes).expect("frame should decode");
    assert!(decoded.is_empty());
}

#[test]
fn unknown_tag_is_malformed() {
    let msgs = vec![NetworkMessage::Ping(1)];
    let mut bytes = encode_frame(&msgs);
    // The message tag byte sits right after the 8-byte count.
    bytes[8] = 99;
    assert!(decode_frame(&bytes).is_none());
}

#[test]
fn bad_direction_bits_are_malformed() {
    let msgs = vec![NetworkMessage::ScheduleActions {
        actions: vec![
            PlayerAction::StartMoving { dir: Direction::up() }.for_player(PlayerId(0)),
        ],
    }];
    let mut bytes = encode_frame(&msgs);
    // count(8) + msg tag(1) + action count(8) + action tag(1) +
    // intent tag(1) puts the direction byte at offset 19.
    assert_eq!(bytes[19], 1);
    bytes[19] = 0xF0;
    assert!(decode_frame(&bytes).is_none());
}

#[test]
fn truncated_frame_is_malformed() {
    let msgs = vec![NetworkMessage::Ping(1)];
    let mut bytes = encode_frame(&msgs);
    bytes.pop();
    assert!(decode_frame(&bytes).is_none());
}

#[test]
fn trailing_bytes_are_malformed() {
    let msgs = vec![NetworkMessage::Ping(1)];
    let mut bytes = encode_frame(&msgs);
    bytes.push(0);
    assert!(decode_frame(&bytes).is_none());
}

#[test]
fn fixed_point_byte_form_round_trips() {
    for raw in [0i64, 1, -1, 4096, -4096, i64::MAX, i64::MIN, 123456789012345] {
        let f = FixedPoint::from_raw(raw);
        let bytes = f.to_be_bytes();
        assert_eq!(bytes.len(), 8);
        let back = FixedPoint::from_be_bytes(bytes.as_slice());
        assert_eq!(back.raw, raw);
    }
}

#[test]
fn fixed_point_byte_form_is_big_endian() {
    // 1.0 in 12-bit fixed point is 4096 = 0x1000.
    let one = FixedPoint::from_int(1);
    assert_eq!(one.raw, 4096);
    let bytes = one.to_be_bytes();
    assert_eq!(bytes.as_slice(), [0, 0, 0, 0, 0, 0, 0x10, 0x00]);
}

#[test]
fn fixed_point_arithmetic_is_exact() {
    let a = FixedPoint::from_int(3);
    let b = FixedPoint::from_int(2);
    assert_eq!(a.add(b).raw, 5 * 4096);
    assert_eq!(a.sub(b).raw, 4096);
    assert_eq!(a.mul(b).raw, 6 * 4096);
    assert_eq!(a.div(b).raw, 4096 + 2048); // 1.5
    // Division truncates toward zero.
    let minus_three = FixedPoint::from_int(-3);
    let two = FixedPoint::from_int(2);
    assert_eq!(minus_three.div(two).raw, -(4096 + 2048));
    let seven = FixedPoint::from_int(7);
    let three = FixedPoint::from_int(3);
    // 7/3 = 2.3333...; the raw quotient truncates.
    assert_eq!(seven.div(three).raw, 7 * 4096 * 4096 / (3 * 4096));
}

#[test]
fn fixed_point_checked_arithmetic_reports_overflow() {
    let max = FixedPoint::from_raw(i64::MAX);
    let one = FixedPoint::from_raw(1);
    assert!(max.checked_add(one).is_none());
    assert!(max.checked_sub(one).is_some());
    assert!(max.checked_mul(max).is_none());
    assert!(one.checked_div(FixedPoint::from_raw(0)).is_none());
}
