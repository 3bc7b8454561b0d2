use bomber_core::components::BombSlot;
use bomber_core::constants::{INPUT_FIRE, INPUT_RIGHT, INPUT_UP};
use bomber_core::session::{LocalSession, SessionError};

fn armed_count(s: &LocalSession, handle: usize) -> usize {
    let state = s.states.last().unwrap();
    state.players[handle]
        .bag
        .slots
        .iter()
        .filter(|slot| matches!(slot, BombSlot::Armed(_)))
        .count()
}

#[test]
fn start_local_validates_configuration() {
    assert_eq!(
        LocalSession::start_local(0, 0, 2, 60).err(),
        Some(SessionError::InvalidConfigurationError)
    );
    assert_eq!(
        LocalSession::start_local(3, 0, 2, 60).err(),
        Some(SessionError::InvalidConfigurationError)
    );
    assert_eq!(
        LocalSession::start_local(2, 0, 0, 60).err(),
        Some(SessionError::InvalidConfigurationError)
    );
    assert_eq!(
        LocalSession::start_local(2, 0, 2, 0).err(),
        Some(SessionError::InvalidConfigurationError)
    );
    assert!(LocalSession::start_local(2, 0, 2, 60).is_ok());
    assert!(LocalSession::start_local(1, 2, 8, 60).is_ok());
}

#[test]
fn fire_arms_one_slot_and_detonates_at_tick_240() {
    // two local participants, check distance two; fire on tick zero only
    let mut s = LocalSession::start_local(2, 0, 2, 60).unwrap();
    let r0 = s.advance(&vec![INPUT_FIRE, 0]);
    assert_eq!(r0.checksum.tick, 0);
    assert!(!r0.desync_detected);
    assert!(r0.spawned.is_empty());

    // exactly one armed slot in handle zero's bag, fuse seeded to 240
    assert_eq!(armed_count(&s, 0), 1);
    assert_eq!(armed_count(&s, 1), 0);
    match s.states[0].players[0].bag.slots[0] {
        BombSlot::Armed(b) => {
            assert_eq!(b.fuse_ticks, 240);
            assert_eq!((b.x, b.y), (0, 0));
        }
        BombSlot::Empty => panic!("slot 0 should be armed"),
    }

    // ticks 1..=239: fuse burns down, nothing detonates
    for tick in 1..240 {
        let r = s.advance(&vec![0, 0]);
        assert_eq!(r.checksum.tick, tick);
        assert!(r.spawned.is_empty(), "early detonation at tick {tick}");
        assert!(!r.desync_detected);
    }
    match s.states[239].players[0].bag.slots[0] {
        BombSlot::Armed(b) => assert_eq!(b.fuse_ticks, 1),
        BombSlot::Empty => panic!("slot 0 should still be armed at tick 239"),
    }

    // tick 240: the slot returns to empty and the explosion spawn is observed
    let r240 = s.advance(&vec![0, 0]);
    assert_eq!(r240.checksum.tick, 240);
    assert_eq!(r240.spawned.len(), 1);
    assert_eq!((r240.spawned[0].x, r240.spawned[0].y), (0, 0));
    assert!(matches!(s.states[240].players[0].bag.slots[0], BombSlot::Empty));
    assert_eq!(armed_count(&s, 0), 0);
    assert_eq!(s.states[240].explosions.len(), 1);
}

#[test]
fn explosion_is_removed_after_sixteen_frame_advances() {
    // spawn a bomb on tick 0; it detonates on tick 240 and the explosion
    // then animates one frame per 50 ms (every third tick at 60 Hz),
    // disappearing with its sixteenth advance 48 ticks after the spawn
    let mut s = LocalSession::start_local(1, 0, 1, 60).unwrap();
    s.advance(&vec![INPUT_FIRE]);
    for _ in 1..=240 {
        s.advance(&vec![0]);
    }
    assert_eq!(s.states[240].explosions.len(), 1);
    assert_eq!(s.states[240].explosions[0].frame, 0);
    for tick in 241..287 {
        s.advance(&vec![0]);
        let expect_frame = (tick - 239) / 3;
        assert_eq!(s.states[tick].explosions.len(), 1, "gone early at tick {tick}");
        assert_eq!(
            s.states[tick].explosions[0].frame, expect_frame as u32,
            "frame mismatch at tick {tick}"
        );
    }
    assert_eq!(s.states[286].explosions[0].frame, 15);
    s.advance(&vec![0]);
    assert!(s.states[287].explosions.is_empty(), "explosion must vanish at tick 287");
}

#[test]
fn held_fire_arms_one_slot_per_tick_and_slots_release() {
    let mut s = LocalSession::start_local(1, 0, 1, 60).unwrap();
    // hold fire for 12 ticks: the 9 slots fill, then no capacity remains
    for tick in 0..12 {
        s.advance(&vec![INPUT_FIRE]);
        let expect = (tick + 1).min(9);
        assert_eq!(armed_count(&s, 0), expect, "tick {tick}");
    }
}

#[test]
fn identical_runs_give_identical_checksum_sequences() {
    let inputs: Vec<Vec<u8>> = (0..120)
        .map(|t| vec![if t % 3 == 0 { INPUT_RIGHT } else { INPUT_UP | INPUT_FIRE }, INPUT_UP])
        .collect();
    let mut a = LocalSession::start_local(2, 0, 2, 60).unwrap();
    let mut b = LocalSession::start_local(2, 0, 2, 60).unwrap();
    for row in &inputs {
        let ra = a.advance(row);
        let rb = b.advance(row);
        assert_eq!(ra.checksum.tick, rb.checksum.tick);
        assert_eq!(ra.checksum.digest, rb.checksum.digest);
        assert!(!ra.desync_detected);
        assert!(!rb.desync_detected);
    }
    assert_eq!(a.checksums.len(), 120);
    for t in 0..120 {
        assert_eq!(a.checksums[t].digest, b.checksums[t].digest);
    }
}

#[test]
fn input_delay_defers_local_masks() {
    let mut s = LocalSession::start_local(1, 2, 1, 60).unwrap();
    // the mask given on tick 0 applies on tick 2; ticks 0 and 1 are neutral
    s.advance(&vec![INPUT_RIGHT]);
    assert_eq!(s.states[0].players[0].x, 0);
    s.advance(&vec![0]);
    assert_eq!(s.states[1].players[0].x, 0);
    s.advance(&vec![0]);
    assert_eq!(s.states[2].players[0].x, 13);
    s.advance(&vec![0]);
    assert_eq!(s.states[3].players[0].x, 13);
}
