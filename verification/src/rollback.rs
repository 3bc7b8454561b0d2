//! The fixed-order per-tick pipeline and its mathematical model.
//!
//! Each tick executes exactly: movement, bomb arming, fuse countdown,
//! explosion spawn, explosion animation, checksum capture. The order is a
//! visible contract: later systems consume what earlier systems produced
//! this tick, and a bomb armed this tick receives its first fuse decrement
//! only next tick. `spec_state_at` folds the pipeline over an input history,
//! which is what every session invariant, replay argument and determinism
//! law is stated against.

use vstd::prelude::*;
use crate::components::{GameState, StateView, PlayerView, Bomb, BombSlot, ExplosionToSpawn,
    player_wf, explosion_wf, in_bound, slot_armed, slot_bomb};
use crate::constants::EXPLOSION_FRAME_MS;
use crate::input::{InputFrame, InputStatus, spec_resolved_bits, spec_dir_x, spec_dir_y};
use crate::player::{spec_move_players, lemma_movement_stays_in_bound};
use crate::bomb::{spec_arm_players, spec_armed_slots, spec_tick_players, spec_all_spawns,
    spec_spawn_explosions, spec_animate, spec_arm_player, spec_tick_slots, spec_tick_slot,
    spec_wants_to_arm, spec_first_empty, is_newly_armed, lemma_arm_player_wf, lemma_tick_player_wf,
    lemma_all_spawns_in_bound, lemma_animate_wf, lemma_first_empty_is_empty,
    lemma_bag_spawn_contains, lemma_all_spawns_contains, player_place_bomb_system,
    bomb_explosion_system, explosion_to_spawn_system, explosion_animation_system};
use crate::player::move_players;

verus! {

/// A tick's input frames are well formed when there is exactly one per
/// participant, in handle order.
pub open spec fn frames_wf(frames: Seq<InputFrame>, n: int) -> bool {
    &&& frames.len() == n
    &&& forall|i: int| 0 <= i < n ==> (#[trigger] frames[i]).handle == i
}

/// Spawn requests one tick of the pipeline emits.
pub open spec fn spec_step_spawns(s: StateView, frames: Seq<InputFrame>) -> Seq<ExplosionToSpawn> {
    let p1 = spec_move_players(s.players, frames);
    spec_all_spawns(spec_arm_players(p1, frames), spec_armed_slots(p1, frames))
}

/// The state one tick of the pipeline produces: movement, then arming, then
/// fuse countdown (skipping the slot armed this tick), then explosion spawn,
/// then explosion animation.
pub open spec fn spec_step_state(s: StateView, frames: Seq<InputFrame>, fps: u64) -> StateView {
    let p1 = spec_move_players(s.players, frames);
    let p2 = spec_arm_players(p1, frames);
    let newly = spec_armed_slots(p1, frames);
    StateView {
        players: spec_tick_players(p2, newly),
        explosions: spec_animate(
            spec_spawn_explosions(s.explosions, spec_step_spawns(s, frames)),
            fps,
        ),
    }
}

/// The state after the first `t` ticks of a history, starting from `init`.
pub open spec fn spec_state_at(
    init: StateView,
    hist: Seq<Seq<InputFrame>>,
    fps: u64,
    t: int,
) -> StateView
    decreases t,
{
    if t <= 0 {
        init
    } else {
        spec_step_state(spec_state_at(init, hist, fps, t - 1), hist[t - 1], fps)
    }
}

/// One tick preserves well-formedness, the roster size and the handles.
pub proof fn lemma_step_wf(s: StateView, frames: Seq<InputFrame>, fps: u64)
    requires
        s.wf(fps),
        frames_wf(frames, s.players.len() as int),
    ensures
        spec_step_state(s, frames, fps).wf(fps),
        spec_step_state(s, frames, fps).players.len() == s.players.len(),
        forall|k: int| 0 <= k < spec_step_spawns(s, frames).len() ==> in_bound(
            (#[trigger] spec_step_spawns(s, frames)[k]).x as int,
        ) && in_bound(spec_step_spawns(s, frames)[k].y as int),
{
    let n = s.players.len() as int;
    let p1 = spec_move_players(s.players, frames);
    assert forall|i: int| 0 <= i < n implies player_wf(#[trigger] p1[i]) && p1[i].handle
        == i by {
        lemma_movement_stays_in_bound(s.players[i], spec_resolved_bits(frames[i]));
    }
    let p2 = spec_arm_players(p1, frames);
    let newly = spec_armed_slots(p1, frames);
    assert forall|i: int| 0 <= i < n implies player_wf(#[trigger] p2[i]) && p2[i].handle
        == i by {
        lemma_arm_player_wf(p1[i], frames[i]);
    }
    let p3 = spec_tick_players(p2, newly);
    assert forall|i: int| 0 <= i < n implies player_wf(#[trigger] p3[i]) && p3[i].handle
        == i by {
        lemma_tick_player_wf(p2[i], newly[i]);
        assert(p3[i] == (PlayerView { slots: spec_tick_slots(p2[i].slots, newly[i]), ..p2[i] }));
    }
    let spawns = spec_step_spawns(s, frames);
    lemma_all_spawns_in_bound(p2, newly);
    let e1 = spec_spawn_explosions(s.explosions, spawns);
    assert forall|i: int| 0 <= i < e1.len() implies explosion_wf(#[trigger] e1[i], fps) by {
        if i < s.explosions.len() {
            assert(e1[i] == s.explosions[i]);
        } else {
            let r = spawns[i - s.explosions.len()];
            assert(e1[i] == crate::bomb::spec_new_explosion(r));
            assert(EXPLOSION_FRAME_MS * fps >= EXPLOSION_FRAME_MS * 1) by (nonlinear_arith)
                requires
                    fps >= 1,
            ;
        }
    }
    lemma_animate_wf(e1, fps);
}

/// The run of a history preserves well-formedness and the roster.
pub proof fn lemma_run_wf(init: StateView, hist: Seq<Seq<InputFrame>>, fps: u64, t: int)
    requires
        init.wf(fps),
        0 <= t <= hist.len(),
        forall|u: int| 0 <= u < t ==> frames_wf(#[trigger] hist[u], init.players.len() as int),
    ensures
        spec_state_at(init, hist, fps, t).wf(fps),
        spec_state_at(init, hist, fps, t).players.len() == init.players.len(),
    decreases t,
{
    if t > 0 {
        lemma_run_wf(init, hist, fps, t - 1);
        lemma_step_wf(spec_state_at(init, hist, fps, t - 1), hist[t - 1], fps);
    }
}

/// The state after `t` ticks depends only on the first `t` ticks of the
/// history.
pub proof fn lemma_state_at_agrees(
    init: StateView,
    h1: Seq<Seq<InputFrame>>,
    h2: Seq<Seq<InputFrame>>,
    fps: u64,
    t: int,
)
    requires
        forall|u: int| 0 <= u < t ==> h1[u] == h2[u],
    ensures
        spec_state_at(init, h1, fps, t) == spec_state_at(init, h2, fps, t),
    decreases t,
{
    if t > 0 {
        lemma_state_at_agrees(init, h1, h2, fps, t - 1);
    }
}

/// Re-simulating from the snapshot after tick `t` with the same history
/// reaches exactly the state straight-line simulation reaches: the heart of
/// rollback correctness.
pub proof fn lemma_replay_from_snapshot(
    init: StateView,
    hist: Seq<Seq<InputFrame>>,
    fps: u64,
    t: int,
    k: int,
)
    requires
        0 <= t,
        0 <= k,
        t + k <= hist.len(),
    ensures
        spec_state_at(spec_state_at(init, hist, fps, t), hist.skip(t), fps, k) == spec_state_at(
            init,
            hist,
            fps,
            t + k,
        ),
    decreases k,
{
    if k > 0 {
        lemma_replay_from_snapshot(init, hist, fps, t, k - 1);
        assert(hist.skip(t)[k - 1] == hist[t + k - 1]);
    }
}

/// Determinism of replay: the state and digest after every tick are a pure
/// function of the initial state and the input history, so re-running an
/// identical history from an identical initial state yields identical
/// checksum snapshots, tick for tick.
pub proof fn lemma_replay_deterministic(
    init1: StateView,
    init2: StateView,
    h1: Seq<Seq<InputFrame>>,
    h2: Seq<Seq<InputFrame>>,
    fps: u64,
    t: int,
)
    requires
        init1 == init2,
        h1 == h2,
    ensures
        spec_state_at(init1, h1, fps, t) == spec_state_at(init2, h2, fps, t),
        crate::checksum::spec_digest(spec_state_at(init1, h1, fps, t)) == crate::checksum::spec_digest(
            spec_state_at(init2, h2, fps, t),
        ),
{
}

/// Every run of the pipeline keeps the roster size, every participant's
/// handle and every bag's slot count, whatever the inputs.
pub proof fn lemma_run_shape(init: StateView, hist: Seq<Seq<InputFrame>>, fps: u64, t: int, p: int)
    requires
        0 <= p < init.players.len(),
        0 <= t,
        init.players[p].slots.len() <= usize::MAX,
    ensures
        spec_state_at(init, hist, fps, t).players.len() == init.players.len(),
        spec_state_at(init, hist, fps, t).players[p].handle == init.players[p].handle,
        spec_state_at(init, hist, fps, t).players[p].slots.len() == init.players[p].slots.len(),
    decreases t,
{
    if t > 0 {
        lemma_run_shape(init, hist, fps, t - 1, p);
        let s = spec_state_at(init, hist, fps, t - 1);
        let frames = hist[t - 1];
        let p1 = spec_move_players(s.players, frames);
        assert(p1[p].slots == s.players[p].slots && p1[p].handle == s.players[p].handle);
        let p2 = spec_arm_players(p1, frames);
        let a = spec_arm_player(p1[p], frames[p]);
        assert(p2[p] == a.0);
        lemma_first_empty_is_empty(p1[p].slots, 0);
        if spec_wants_to_arm(frames[p]) {
            match spec_first_empty(p1[p].slots) {
                Some(j) => {
                    assert(a.0 == (PlayerView {
                        slots: p1[p].slots.update(
                            j as int,
                            BombSlot::Armed(
                                Bomb {
                                    fuse_ticks: crate::constants::FUSE_TICKS,
                                    x: p1[p].x,
                                    y: p1[p].y,
                                },
                            ),
                        ),
                        ..p1[p]
                    }));
                    assert(a.0.slots.len() == p1[p].slots.len() && a.0.handle == p1[p].handle);
                },
                None => {},
            }
        }
        assert(p2[p].slots.len() == p1[p].slots.len() && p2[p].handle == p1[p].handle);
        let newly = spec_armed_slots(p1, frames);
        assert(spec_tick_players(p2, newly)[p].slots.len() == p2[p].slots.len());
        assert(spec_tick_players(p2, newly)[p].handle == p2[p].handle);
    }
}

/// One tick cannot move a disconnected participant: the frame resolves to
/// the neutral mask, whose direction cancels, and arming needs a confirmed
/// frame.
pub proof fn lemma_disconnected_one_tick(s: StateView, frames: Seq<InputFrame>, fps: u64, p: int)
    requires
        0 <= p < s.players.len(),
        frames.len() == s.players.len(),
        frames[p].status matches InputStatus::Disconnected,
    ensures
        spec_step_state(s, frames, fps).players[p].x == s.players[p].x,
        spec_step_state(s, frames, fps).players[p].y == s.players[p].y,
{
    assert(spec_resolved_bits(frames[p]) == 0);
    assert(0u8 & 1u8 == 0 && 0u8 & 2u8 == 0 && 0u8 & 4u8 == 0 && 0u8 & 8u8 == 0) by (bit_vector);
    assert(spec_dir_x(0) == 0 && spec_dir_y(0) == 0);
    let p1 = spec_move_players(s.players, frames);
    assert(p1[p] == s.players[p]);
    let p2 = spec_arm_players(p1, frames);
    assert(!spec_wants_to_arm(frames[p]));
    assert(p2[p] == p1[p]);
}

/// A disconnected participant's position never changes, over any number of
/// ticks: every tick of a history that holds it disconnected resolves it to
/// neutral input and leaves it exactly where it started.
pub proof fn lemma_disconnected_position_fixed(
    init: StateView,
    hist: Seq<Seq<InputFrame>>,
    fps: u64,
    t: int,
    p: int,
)
    requires
        0 <= t <= hist.len(),
        0 <= p < init.players.len(),
        init.players[p].slots.len() <= usize::MAX,
        forall|u: int| 0 <= u < t ==> (#[trigger] hist[u]).len() == init.players.len(),
        forall|u: int| 0 <= u < t ==> (#[trigger] hist[u])[p].status
            matches InputStatus::Disconnected,
    ensures
        spec_state_at(init, hist, fps, t).players[p].x == init.players[p].x,
        spec_state_at(init, hist, fps, t).players[p].y == init.players[p].y,
    decreases t,
{
    if t > 0 {
        lemma_disconnected_position_fixed(init, hist, fps, t - 1, p);
        lemma_run_shape(init, hist, fps, t - 1, p);
        lemma_disconnected_one_tick(spec_state_at(init, hist, fps, t - 1), hist[t - 1], fps, p);
    }
}

/// A participant's position stays inside `[-POSITION_BOUND, POSITION_BOUND]`
/// on each axis after any number of ticks of any well-formed inputs, from
/// any well-formed start.
pub proof fn lemma_positions_always_in_bound(
    init: StateView,
    hist: Seq<Seq<InputFrame>>,
    fps: u64,
    t: int,
    p: int,
)
    requires
        init.wf(fps),
        0 <= t <= hist.len(),
        forall|u: int| 0 <= u < t ==> frames_wf(#[trigger] hist[u], init.players.len() as int),
        0 <= p < init.players.len(),
    ensures
        in_bound(spec_state_at(init, hist, fps, t).players[p].x as int),
        in_bound(spec_state_at(init, hist, fps, t).players[p].y as int),
{
    lemma_run_wf(init, hist, fps, t);
}

/// One tick's effect on a slot that entered the tick armed: the fuse counts
/// down by one (the slot cannot be re-armed, since arming targets only
/// empty slots); when the fuse reaches zero the bomb is removed, the slot
/// is released, and the spawn request at the bomb's position is emitted.
pub proof fn lemma_armed_slot_one_tick(
    s: StateView,
    frames: Seq<InputFrame>,
    fps: u64,
    p: int,
    j: int,
)
    requires
        0 <= p < s.players.len(),
        frames.len() == s.players.len(),
        s.players[p].slots.len() <= usize::MAX,
        0 <= j < s.players[p].slots.len(),
        slot_armed(s.players[p].slots[j]),
        slot_bomb(s.players[p].slots[j]).fuse_ticks >= 1,
    ensures
        ({
            let b = slot_bomb(s.players[p].slots[j]);
            let after = spec_step_state(s, frames, fps).players[p].slots[j];
            if b.fuse_ticks > 1 {
                after == BombSlot::Armed(
                    Bomb { fuse_ticks: (b.fuse_ticks - 1) as u32, x: b.x, y: b.y },
                )
            } else {
                !slot_armed(after) && spec_step_spawns(s, frames).contains(
                    ExplosionToSpawn { x: b.x, y: b.y },
                )
            }
        }),
{
    let b = slot_bomb(s.players[p].slots[j]);
    let p1 = spec_move_players(s.players, frames);
    assert(p1[p].slots == s.players[p].slots);
    let p2 = spec_arm_players(p1, frames);
    let newly = spec_armed_slots(p1, frames);
    lemma_first_empty_is_empty(p1[p].slots, 0);
    assert(p2[p].slots[j] == s.players[p].slots[j]);
    assert(!is_newly_armed(newly[p], j));
    let p3 = spec_tick_players(p2, newly);
    assert(p3[p].slots[j] == spec_tick_slot(p2[p].slots[j], is_newly_armed(newly[p], j)).0);
    if b.fuse_ticks <= 1 {
        lemma_bag_spawn_contains(p2[p].slots, newly[p], j);
        lemma_all_spawns_contains(p2, newly, p, ExplosionToSpawn { x: b.x, y: b.y });
    }
}

/// A bomb armed with `f` ticks of fuse detonates exactly `f` ticks later,
/// whatever inputs arrive meanwhile: through each of the first `f - 1`
/// following ticks the slot stays armed with the fuse counting down one per
/// tick, and on the `f`-th tick the bomb is removed, the slot is released,
/// and the explosion-spawn request at the bomb's position is emitted.
/// Together with `lemma_replay_from_snapshot` this holds equally for a
/// straight-line run and for a rollback re-simulation of the same interval.
pub proof fn lemma_bomb_detonates_on_schedule(
    init: StateView,
    hist: Seq<Seq<InputFrame>>,
    fps: u64,
    p: int,
    j: int,
    k: int,
)
    requires
        0 <= p < init.players.len(),
        init.players[p].slots.len() <= usize::MAX,
        0 <= j < init.players[p].slots.len(),
        forall|u: int| 0 <= u < hist.len() ==> (#[trigger] hist[u]).len()
            == init.players.len(),
        slot_armed(init.players[p].slots[j]),
        slot_bomb(init.players[p].slots[j]).fuse_ticks == hist.len(),
        1 <= hist.len(),
        0 <= k <= hist.len(),
    ensures
        k < hist.len() ==> spec_state_at(init, hist, fps, k).players[p].slots[j]
            == BombSlot::Armed(
            Bomb {
                fuse_ticks: (hist.len() - k) as u32,
                x: slot_bomb(init.players[p].slots[j]).x,
                y: slot_bomb(init.players[p].slots[j]).y,
            },
        ),
        k == hist.len() ==> !slot_armed(spec_state_at(init, hist, fps, k).players[p].slots[j]),
        k == hist.len() ==> spec_step_spawns(
            spec_state_at(init, hist, fps, k - 1),
            hist[k - 1],
        ).contains(
            ExplosionToSpawn {
                x: slot_bomb(init.players[p].slots[j]).x,
                y: slot_bomb(init.players[p].slots[j]).y,
            },
        ),
    decreases k,
{
    let b = slot_bomb(init.players[p].slots[j]);
    if k > 0 {
        lemma_bomb_detonates_on_schedule(init, hist, fps, p, j, k - 1);
        lemma_run_shape(init, hist, fps, k - 1, p);
        lemma_armed_slot_one_tick(spec_state_at(init, hist, fps, k - 1), hist[k - 1], fps, p, j);
    }
}

/// Runs the deterministic simulation systems of one tick, in their fixed
/// order: movement, bomb arming, fuse countdown, explosion spawn, explosion
/// animation. Returns the explosion-spawn requests the tick emitted; the
/// caller captures the checksum as the sixth and final step.
pub fn run_tick_systems(state: &mut GameState, frames: &Vec<InputFrame>, fps: u64) -> (spawns:
    Vec<ExplosionToSpawn>)
    requires
        old(state)@.wf(fps),
        frames_wf(frames@, old(state)@.players.len() as int),
        fps <= u32::MAX,
    ensures
        final(state)@ == spec_step_state(old(state)@, frames@, fps),
        spawns@ == spec_step_spawns(old(state)@, frames@),
        final(state)@.wf(fps),
        final(state)@.players.len() == old(state)@.players.len(),
{
    let ghost s0 = state@;
    proof {
        lemma_step_wf(s0, frames@, fps);
    }
    move_players(state, frames);
    let ghost p1 = spec_move_players(s0.players, frames@);
    proof {
        assert forall|i: int| 0 <= i < p1.len() implies player_wf(#[trigger] p1[i]) by {
            lemma_movement_stays_in_bound(s0.players[i], spec_resolved_bits(frames@[i]));
        }
    }
    let armed = player_place_bomb_system(state, frames);
    let ghost p2 = spec_arm_players(p1, frames@);
    proof {
        assert forall|i: int| 0 <= i < p2.len() implies player_wf(#[trigger] p2[i]) by {
            lemma_arm_player_wf(p1[i], frames@[i]);
        }
        assert(armed@ =~= spec_armed_slots(p1, frames@));
    }
    let spawns = bomb_explosion_system(state, &armed);
    explosion_to_spawn_system(state, &spawns);
    proof {
        assert(spawns@ == spec_step_spawns(s0, frames@));
        lemma_all_spawns_in_bound(p2, spec_armed_slots(p1, frames@));
        let e1 = spec_spawn_explosions(s0.explosions, spawns@);
        assert forall|i: int| 0 <= i < e1.len() implies explosion_wf(#[trigger] e1[i], fps) by {
            if i < s0.explosions.len() {
                assert(e1[i] == s0.explosions[i]);
            } else {
                let r = spawns@[i - s0.explosions.len()];
                assert(e1[i] == crate::bomb::spec_new_explosion(r));
                assert(EXPLOSION_FRAME_MS * fps >= EXPLOSION_FRAME_MS * 1) by (nonlinear_arith)
                    requires
                        fps >= 1,
                ;
            }
        }
    }
    explosion_animation_system(state, fps);
    proof {
        assert(state@ =~= spec_step_state(s0, frames@, fps));
    }
    spawns
}

} // verus!
