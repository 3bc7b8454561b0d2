use bomber_core::components::{BombBag, Player};
use bomber_core::constants::{INPUT_DOWN, INPUT_FIRE, INPUT_LEFT, INPUT_RIGHT, INPUT_UP};
use bomber_core::input::{control_direction, handle_input_system, resolved_bits, ControlState,
    InputFrame, InputStatus};
use bomber_core::player::{move_player, spawn_players};

fn frame(bits: u8, status: InputStatus) -> InputFrame {
    InputFrame { handle: 0, bits, status }
}

fn player_at(x: i32, y: i32) -> Player {
    Player { handle: 0, x, y, bag: BombBag::default() }
}

#[test]
fn mask_composition_sets_independent_bits() {
    let all = ControlState { up: true, down: true, left: true, right: true, fire: true };
    assert_eq!(
        handle_input_system(&all),
        INPUT_UP | INPUT_DOWN | INPUT_LEFT | INPUT_RIGHT | INPUT_FIRE
    );
    let none = ControlState { up: false, down: false, left: false, right: false, fire: false };
    assert_eq!(handle_input_system(&none), 0);
    let some = ControlState { up: true, down: false, left: false, right: true, fire: false };
    assert_eq!(handle_input_system(&some), INPUT_UP | INPUT_RIGHT);
}

#[test]
fn direction_components_cancel() {
    assert_eq!(control_direction(&(INPUT_UP | INPUT_DOWN)), (0, 0));
    assert_eq!(control_direction(&(INPUT_LEFT | INPUT_RIGHT)), (0, 0));
    assert_eq!(control_direction(&INPUT_UP), (0, 1));
    assert_eq!(control_direction(&INPUT_DOWN), (0, -1));
    assert_eq!(control_direction(&INPUT_LEFT), (-1, 0));
    assert_eq!(control_direction(&INPUT_RIGHT), (1, 0));
}

#[test]
fn up_right_moves_vertically_only() {
    // the diagonal rule: {up, right} at the origin yields (0, +0.13),
    // never a diagonal vector
    let p = player_at(0, 0);
    let moved = move_player(&p, &frame(INPUT_UP | INPUT_RIGHT, InputStatus::Confirmed));
    assert_eq!(moved.x, 0);
    assert_eq!(moved.y, 13);
}

#[test]
fn movement_is_never_diagonal() {
    for bits in 0u8..32u8 {
        let p = player_at(700, -400);
        let moved = move_player(&p, &frame(bits, InputStatus::Confirmed));
        let dx = moved.x - p.x;
        let dy = moved.y - p.y;
        assert!(dx == 0 || dy == 0, "diagonal move for mask {bits}: ({dx}, {dy})");
    }
}

#[test]
fn horizontal_axis_wins_when_vertical_cancels() {
    let p = player_at(0, 0);
    let moved = move_player(&p, &frame(INPUT_UP | INPUT_DOWN | INPUT_RIGHT, InputStatus::Confirmed));
    assert_eq!((moved.x, moved.y), (13, 0));
}

#[test]
fn predicted_input_moves_and_disconnected_does_not() {
    let p = player_at(0, 0);
    let predicted = move_player(&p, &frame(INPUT_RIGHT, InputStatus::Predicted));
    assert_eq!((predicted.x, predicted.y), (13, 0));
    let disconnected = move_player(&p, &frame(INPUT_RIGHT, InputStatus::Disconnected));
    assert_eq!((disconnected.x, disconnected.y), (0, 0));
    assert_eq!(resolved_bits(&frame(INPUT_RIGHT, InputStatus::Disconnected)), 0);
}

#[test]
fn position_clamps_at_field_edge() {
    // the half-extent is 2499.5 units = 249950 centi-units
    let p = player_at(249945, 0);
    let moved = move_player(&p, &frame(INPUT_RIGHT, InputStatus::Confirmed));
    assert_eq!(moved.x, 249950);
    let again = move_player(&moved, &frame(INPUT_RIGHT, InputStatus::Confirmed));
    assert_eq!(again.x, 249950);
    let low = player_at(-249949, -249950);
    let moved_low = move_player(&low, &frame(INPUT_LEFT, InputStatus::Confirmed));
    assert_eq!(moved_low.x, -249950);
}

#[test]
fn long_input_sequence_stays_in_bound() {
    let mut p = player_at(249000, -249000);
    let masks = [
        INPUT_RIGHT,
        INPUT_RIGHT | INPUT_UP,
        INPUT_DOWN,
        INPUT_LEFT | INPUT_DOWN,
        INPUT_UP | INPUT_DOWN | INPUT_LEFT,
    ];
    for step in 0..500 {
        p = move_player(&p, &frame(masks[step % masks.len()], InputStatus::Confirmed));
        assert!(p.x >= -249950 && p.x <= 249950);
        assert!(p.y >= -249950 && p.y <= 249950);
    }
}

#[test]
fn spawn_players_places_dense_handles_at_origin() {
    let players = spawn_players(2);
    assert_eq!(players.len(), 2);
    for (i, p) in players.iter().enumerate() {
        assert_eq!(p.handle, i);
        assert_eq!((p.x, p.y), (0, 0));
    }
}
