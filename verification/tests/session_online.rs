use bomber_core::components::BombSlot;
use bomber_core::constants::{INPUT_FIRE, INPUT_RIGHT};
use bomber_core::input::InputStatus;
use bomber_core::session::{ConnectStatus, OnlineSession, ParticipantKind, PeerComparison,
    SessionError};

fn roster_local_remote() -> Vec<ParticipantKind> {
    vec![
        ParticipantKind::Local,
        ParticipantKind::Remote { address: String::from("room-42/peer-b") },
    ]
}

fn start_default(window: usize) -> OnlineSession {
    OnlineSession::start_online(2, roster_local_remote(), 0, window, 60, ConnectStatus::Established)
        .unwrap()
}

#[test]
fn start_online_validates_and_reports_connection_failure() {
    let bad_count =
        OnlineSession::start_online(0, vec![], 0, 8, 60, ConnectStatus::Established);
    assert_eq!(bad_count.err(), Some(SessionError::InvalidConfigurationError));
    let mismatch = OnlineSession::start_online(
        2,
        vec![ParticipantKind::Local],
        0,
        8,
        60,
        ConnectStatus::Established,
    );
    assert_eq!(mismatch.err(), Some(SessionError::InvalidConfigurationError));
    let zero_window =
        OnlineSession::start_online(2, roster_local_remote(), 0, 0, 60, ConnectStatus::Established);
    assert_eq!(zero_window.err(), Some(SessionError::InvalidConfigurationError));
    let zero_fps =
        OnlineSession::start_online(2, roster_local_remote(), 0, 8, 0, ConnectStatus::Established);
    assert_eq!(zero_fps.err(), Some(SessionError::InvalidConfigurationError));
    let failed =
        OnlineSession::start_online(2, roster_local_remote(), 0, 8, 60, ConnectStatus::Failed);
    assert_eq!(failed.err(), Some(SessionError::ConnectionError));
    assert!(
        OnlineSession::start_online(2, roster_local_remote(), 2, 8, 60, ConnectStatus::Established)
            .is_ok()
    );
}

#[test]
fn unknown_remote_input_predicts_last_confirmed() {
    let mut s = start_default(8);
    // tick 0: nothing known about the remote, prediction is neutral
    let r0 = s.advance(&vec![0, 0]);
    assert_eq!(s.states[0].players[1].x, 0);
    assert!(!r0.desync_detected);
    // confirm right for tick 1; ticks 2 and 3 then predict right again
    assert!(s.push_remote_input(1, 1, INPUT_RIGHT).is_ok());
    s.advance(&vec![0, 0]);
    s.advance(&vec![0, 0]);
    s.advance(&vec![0, 0]);
    assert_eq!(s.states[1].players[1].x, 13);
    assert_eq!(s.states[2].players[1].x, 26);
    assert_eq!(s.states[3].players[1].x, 39);
}

#[test]
fn late_confirmation_rolls_back_and_resimulates() {
    let mut s = start_default(8);
    s.advance(&vec![0, 0]);
    s.advance(&vec![0, 0]);
    s.advance(&vec![0, 0]);
    // simulated with neutral predictions: the remote never moved
    assert_eq!(s.states[2].players[1].x, 0);
    let before = s.checksums[2].digest;

    // the real input for tick 1 arrives late: right was held
    assert!(s.push_remote_input(1, 1, INPUT_RIGHT).is_ok());
    // current tick is unchanged, but ticks 1 and 2 were re-simulated:
    // tick 1 uses the confirmed mask, tick 2 predicts it again
    assert_eq!(s.history.len(), 3);
    assert_eq!(s.states[0].players[1].x, 0);
    assert_eq!(s.states[1].players[1].x, 13);
    assert_eq!(s.states[2].players[1].x, 26);
    assert_ne!(s.checksums[2].digest, before);

    // re-delivery of the same confirmation changes nothing
    let x = s.states[2].players[1].x;
    assert!(s.push_remote_input(1, 1, INPUT_RIGHT).is_ok());
    assert_eq!(s.states[2].players[1].x, x);
}

#[test]
fn predicted_fire_does_not_arm_a_bomb() {
    let mut s = start_default(8);
    // confirmed fire on tick 0 arms; the repeated prediction on later
    // ticks must not, since arming is irreversible
    assert!(s.push_remote_input(1, 0, INPUT_FIRE).is_ok());
    s.advance(&vec![0, 0]);
    s.advance(&vec![0, 0]);
    s.advance(&vec![0, 0]);
    let armed: usize = s.states[2].players[1]
        .bag
        .slots
        .iter()
        .filter(|slot| matches!(slot, BombSlot::Armed(_)))
        .count();
    assert_eq!(armed, 1);
}

#[test]
fn correction_beyond_window_is_fatal() {
    let mut s = start_default(2);
    for _ in 0..5 {
        s.advance(&vec![0, 0]);
    }
    let r = s.push_remote_input(1, 1, INPUT_RIGHT);
    assert_eq!(r.err(), Some(SessionError::RollbackBeyondWindow));
    assert!(s.poisoned);
    // nothing was re-simulated
    assert_eq!(s.history.len(), 5);
    assert_eq!(s.states[1].players[1].x, 0);
}

#[test]
fn correction_at_window_edge_still_rolls_back() {
    let mut s = start_default(2);
    for _ in 0..5 {
        s.advance(&vec![0, 0]);
    }
    // depth exactly the window is allowed
    assert!(s.push_remote_input(1, 3, INPUT_RIGHT).is_ok());
    assert!(!s.poisoned);
    assert_eq!(s.states[3].players[1].x, 13);
}

#[test]
fn disconnected_participant_never_moves() {
    let mut s = start_default(8);
    s.disconnect(1);
    for tick in 0..32 {
        s.advance(&vec![INPUT_RIGHT, 0]);
        let state = &s.states[tick];
        assert_eq!((state.players[1].x, state.players[1].y), (0, 0));
        assert_eq!(state.players[0].x, 13 * (tick as i32 + 1));
    }
    // the frames the session resolved show the neutral disconnected input
    for row in &s.history {
        assert_eq!(row[1].status, InputStatus::Disconnected);
        assert_eq!(row[1].bits, 0);
    }
    // disconnecting again is not an error and changes nothing
    s.disconnect(1);
    s.advance(&vec![0, 0]);
    assert_eq!((s.states[32].players[1].x, s.states[32].players[1].y), (0, 0));
}

#[test]
fn rollback_resimulation_matches_straight_line() {
    // same confirmed inputs, two delivery orders: peer A learns the remote
    // fire before simulating, peer B simulates on predictions and rolls
    // back when the confirmation arrives late; state and checksums must
    // match exactly afterwards
    let mut on_time = start_default(8);
    let mut late = start_default(8);

    assert!(on_time.push_remote_input(1, 0, INPUT_FIRE).is_ok());
    for _ in 0..3 {
        on_time.advance(&vec![INPUT_RIGHT, 0]);
    }

    for _ in 0..3 {
        late.advance(&vec![INPUT_RIGHT, 0]);
    }
    assert!(late.push_remote_input(1, 0, INPUT_FIRE).is_ok());

    assert_eq!(on_time.history.len(), late.history.len());
    for t in 0..3 {
        assert_eq!(
            on_time.checksums[t].digest, late.checksums[t].digest,
            "checksum diverges at tick {t}"
        );
    }
    let a = &on_time.states[2].players[1];
    let b = &late.states[2].players[1];
    assert_eq!((a.x, a.y), (b.x, b.y));
    assert!(matches!(a.bag.slots[0], BombSlot::Armed(_)));
    assert!(matches!(b.bag.slots[0], BombSlot::Armed(_)));
}

#[test]
fn peer_checksum_comparison_verdicts() {
    let mut s = start_default(8);
    s.advance(&vec![INPUT_RIGHT, 0]);
    let own = s.checksums[0].digest;
    assert_eq!(s.push_peer_checksum(0, own), PeerComparison::Matching);
    assert_eq!(
        s.push_peer_checksum(0, own.wrapping_add(1)),
        PeerComparison::DesyncDetected
    );
    assert_eq!(s.push_peer_checksum(5, own), PeerComparison::Unknown);
    // a desync verdict is a diagnostic only: the session keeps running
    s.advance(&vec![0, 0]);
    assert_eq!(s.history.len(), 2);
}
