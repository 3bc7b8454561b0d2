use bomber_core::checksum::checksum_players_system;
use bomber_core::components::GameState;
use bomber_core::constants::{INPUT_FIRE, INPUT_RIGHT};
use bomber_core::player::spawn_players;
use bomber_core::session::{ConnectStatus, ParticipantKind, SessionError, SessionManager};

/// The digest is FNV-1a 64 over the canonical words of the state: for each
/// participant its handle, shifted coordinates and nine slot tags, then the
/// explosions. Recomputed here by hand for the fresh one-participant state.
#[test]
fn digest_of_fresh_state_matches_hand_computed_fnv() {
    let state = GameState { players: spawn_players(1), explosions: Vec::new() };
    let snap = checksum_players_system(&state, 7);
    assert_eq!(snap.tick, 7);

    let words: Vec<u64> = vec![0, 250000, 250000, 0, 0, 0, 0, 0, 0, 0, 0, 0];
    let mut h: u64 = 14695981039346656037;
    for w in words {
        h = (h ^ w).wrapping_mul(1099511628211);
    }
    assert_eq!(snap.digest, h);
}

#[test]
fn digest_depends_on_position() {
    let a = GameState { players: spawn_players(2), explosions: Vec::new() };
    let mut b = GameState { players: spawn_players(2), explosions: Vec::new() };
    b.players[1].x = 13;
    let da = checksum_players_system(&a, 0);
    let db = checksum_players_system(&b, 0);
    assert_ne!(da.digest, db.digest);
}

#[test]
fn manager_owns_one_session_and_teardown_is_idempotent() {
    let mut m = SessionManager::new();
    assert!(m.active.is_none());
    assert_eq!(
        m.start_local(0, 0, 2, 60).err(),
        Some(SessionError::InvalidConfigurationError)
    );
    assert!(m.active.is_none());

    assert!(m.start_local(2, 0, 2, 60).is_ok());
    assert!(m.active.is_some());
    let r = m.advance(&vec![INPUT_RIGHT, 0]);
    assert_eq!(r.checksum.tick, 0);
    assert!(!r.desync_detected);
    let r1 = m.advance(&vec![INPUT_FIRE, 0]);
    assert_eq!(r1.checksum.tick, 1);

    m.teardown();
    assert!(m.active.is_none());
    m.teardown();
    assert!(m.active.is_none());

    // after teardown a new session, of either variant, can start
    let roster = vec![
        ParticipantKind::Local,
        ParticipantKind::Remote { address: String::from("lobby-1") },
    ];
    assert!(m.start_online(2, roster, 2, 8, 60, ConnectStatus::Established).is_ok());
    let r2 = m.advance(&vec![0, 0]);
    assert_eq!(r2.checksum.tick, 0);
    m.teardown();

    let bad_roster = vec![ParticipantKind::Local];
    assert_eq!(
        m.start_online(2, bad_roster, 2, 8, 60, ConnectStatus::Established).err(),
        Some(SessionError::InvalidConfigurationError)
    );
    let roster2 = vec![ParticipantKind::Local, ParticipantKind::Local];
    assert_eq!(
        m.start_online(2, roster2, 2, 8, 60, ConnectStatus::Failed).err(),
        Some(SessionError::ConnectionError)
    );
}
