//! Bomb arming, fuse countdown, and the explosion lifecycle.
//!
//! These are the middle systems of the per-tick pipeline. Arming reacts only
//! to confirmed fire input; a bomb armed this tick receives its first fuse
//! decrement next tick, which the pipeline arranges by handing the freshly
//! armed slot index from the arming system to the countdown system.

use vstd::prelude::*;
use vstd::arithmetic::div_mod::{lemma_multiply_divide_lt, lemma_mod_bound, lemma_basic_div,
    lemma_small_mod, lemma_div_by_self, lemma_mod_self_0};
use crate::constants::{BAG_CAPACITY, FUSE_TICKS, INPUT_FIRE, EXPLOSION_FRAME_MS,
    EXPLOSION_FRAMES, MS_PER_SECOND};
use crate::components::{Bomb, BombSlot, Explosion, ExplosionToSpawn, GameState, PlayerView,
    player_wf, slot_wf, bomb_wf, explosion_wf, in_bound};
use crate::input::{InputFrame, InputStatus};

verus! {

/// Index of the first `Empty` slot at or after position `i`, if any.
pub open spec fn first_empty_from(slots: Seq<BombSlot>, i: int) -> Option<usize>
    decreases slots.len() - i,
{
    if i < 0 || i >= slots.len() {
        None
    } else if (slots[i] matches BombSlot::Empty) {
        Some((i as usize))
    } else {
        first_empty_from(slots, i + 1)
    }
}

/// Index of the first `Empty` slot of a bag, if any.
pub open spec fn spec_first_empty(slots: Seq<BombSlot>) -> Option<usize> {
    first_empty_from(slots, 0)
}

/// The fire bit is acted on only when the frame is confirmed: predicted fire
/// must not arm (a wrong guess would desynchronize irreversible state), and
/// disconnected frames are neutral.
pub open spec fn spec_wants_to_arm(frame: InputFrame) -> bool {
    frame.status matches InputStatus::Confirmed && frame.bits & INPUT_FIRE != 0
}

/// One participant after the arming system: if the frame holds confirmed
/// fire and the bag has an `Empty` slot, the first such slot arms with a
/// fresh fuse at the participant's position; the armed slot index is
/// reported so the countdown skips it this tick.
pub open spec fn spec_arm_player(p: PlayerView, frame: InputFrame) -> (PlayerView, Option<usize>) {
    if spec_wants_to_arm(frame) {
        match spec_first_empty(p.slots) {
            Some(j) => (
                PlayerView {
                    slots: p.slots.update(
                        j as int,
                        BombSlot::Armed(Bomb { fuse_ticks: FUSE_TICKS, x: p.x, y: p.y }),
                    ),
                    ..p
                },
                Some(j),
            ),
            None => (p, None),
        }
    } else {
        (p, None)
    }
}

pub open spec fn spec_arm_players(players: Seq<PlayerView>, frames: Seq<InputFrame>) -> Seq<
    PlayerView,
> {
    Seq::new(players.len(), |i: int| spec_arm_player(players[i], frames[i]).0)
}

pub open spec fn spec_armed_slots(players: Seq<PlayerView>, frames: Seq<InputFrame>) -> Seq<
    Option<usize>,
> {
    Seq::new(players.len(), |i: int| spec_arm_player(players[i], frames[i]).1)
}

/// Arms bombs for every participant whose frame holds confirmed fire: the
/// first `Empty` bag slot (in fixed slot order) becomes `Armed` with a fuse
/// of `FUSE_TICKS`, at the participant's current position. Returns, per
/// participant, the slot index armed this tick, if any.
pub fn player_place_bomb_system(state: &mut GameState, frames: &Vec<InputFrame>) -> (armed: Vec<
    Option<usize>,
>)
    requires
        frames@.len() == old(state)@.players.len(),
        forall|i: int| 0 <= i < old(state)@.players.len()
            ==> player_wf(#[trigger] old(state)@.players[i]),
    ensures
        armed@.len() == old(state)@.players.len(),
        final(state)@.players == spec_arm_players(old(state)@.players, frames@),
        forall|i: int| 0 <= i < armed@.len()
            ==> armed@[i] == spec_arm_player(old(state)@.players[i], frames@[i]).1,
        final(state)@.explosions == old(state)@.explosions,
{
    let n = state.players.len();
    let mut armed: Vec<Option<usize>> = Vec::new();
    let mut i: usize = 0;
    while i < n
        invariant
            n == state.players@.len(),
            n == old(state).players@.len(),
            frames@.len() == n,
            i <= n,
            armed@.len() == i,
            forall|j: int| 0 <= j < n ==> player_wf(#[trigger] old(state)@.players[j]),
            forall|j: int| i <= j < n ==> state.players@[j] == old(state).players@[j],
            forall|j: int| 0 <= j < i ==> #[trigger] state.players@[j]@ == spec_arm_player(
                old(state)@.players[j],
                frames@[j],
            ).0,
            forall|j: int| 0 <= j < i ==> #[trigger] armed@[j] == spec_arm_player(
                old(state)@.players[j],
                frames@[j],
            ).1,
            state.explosions@ == old(state).explosions@,
        decreases n - i,
    {
        proof {
            assert(state.players@[i as int]@ == old(state)@.players[i as int]);
        }
        let frame = frames[i];
        let fire = match frame.status {
            InputStatus::Confirmed => frame.bits & INPUT_FIRE != 0,
            _ => false,
        };
        if fire {
            let slot = arm_first_empty(&mut state.players[i]);
            armed.push(slot);
        } else {
            armed.push(None);
        }
        i = i + 1;
    }
    proof {
        assert(state@.players =~= spec_arm_players(old(state)@.players, frames@));
    }
    armed
}

/// Scans one bag in fixed slot order and arms the first `Empty` slot found.
fn arm_first_empty(p: &mut crate::components::Player) -> (slot: Option<usize>)
    requires
        player_wf(old(p)@),
    ensures
        slot == spec_first_empty(old(p)@.slots),
        match spec_first_empty(old(p)@.slots) {
            Some(j) => final(p)@ == (PlayerView {
                slots: old(p)@.slots.update(
                    j as int,
                    BombSlot::Armed(
                        Bomb { fuse_ticks: FUSE_TICKS, x: old(p)@.x, y: old(p)@.y },
                    ),
                ),
                ..old(p)@
            }),
            None => final(p)@ == old(p)@,
        },
{
    let mut j: usize = 0;
    while j < BAG_CAPACITY
        invariant
            j <= BAG_CAPACITY,
            *p == *old(p),
            player_wf(p@),
            spec_first_empty(old(p)@.slots) == first_empty_from(old(p)@.slots, j as int),
            forall|k: int| 0 <= k < j ==> !(#[trigger] old(p)@.slots[k] matches BombSlot::Empty),
        decreases BAG_CAPACITY - j,
    {
        let is_empty = match p.bag.slots[j] {
            BombSlot::Empty => true,
            BombSlot::Armed(_) => false,
        };
        if is_empty {
            p.bag.slots[j] = BombSlot::Armed(Bomb { fuse_ticks: FUSE_TICKS, x: p.x, y: p.y });
            proof {
                assert(first_empty_from(old(p)@.slots, j as int) == Some(j));
                assert(p@.slots =~= old(p)@.slots.update(
                    j as int,
                    BombSlot::Armed(Bomb { fuse_ticks: FUSE_TICKS, x: old(p)@.x, y: old(p)@.y }),
                ));
            }
            return Some(j);
        }
        j = j + 1;
    }
    None
}

/// Whether `newly` names slot `j`: the slot armed this very tick, which the
/// countdown must not decrement (its first decrement comes next tick).
pub open spec fn is_newly_armed(newly: Option<usize>, j: int) -> bool {
    match newly {
        Some(k) => k == j,
        None => false,
    }
}

/// One slot after the countdown system: an armed fuse (not armed this tick)
/// loses one tick; at zero the bomb is removed, the slot is released back to
/// `Empty`, and an explosion-spawn request at the bomb's position is emitted.
pub open spec fn spec_tick_slot(s: BombSlot, newly: bool) -> (BombSlot, Option<ExplosionToSpawn>) {
    match s {
        BombSlot::Empty => (BombSlot::Empty, None),
        BombSlot::Armed(b) => {
            if newly {
                (BombSlot::Armed(b), None)
            } else if b.fuse_ticks <= 1 {
                (BombSlot::Empty, Some(ExplosionToSpawn { x: b.x, y: b.y }))
            } else {
                (BombSlot::Armed(Bomb { fuse_ticks: (b.fuse_ticks - 1) as u32, ..b }), None)
            }
        },
    }
}

pub open spec fn spec_tick_slots(slots: Seq<BombSlot>, newly: Option<usize>) -> Seq<BombSlot> {
    Seq::new(slots.len(), |j: int| spec_tick_slot(slots[j], is_newly_armed(newly, j)).0)
}

/// Spawn requests one bag emits this tick, in fixed slot order.
pub open spec fn spec_bag_spawns(slots: Seq<BombSlot>, newly: Option<usize>) -> Seq<
    ExplosionToSpawn,
>
    decreases slots.len(),
{
    if slots.len() == 0 {
        Seq::empty()
    } else {
        let front = spec_bag_spawns(slots.drop_last(), newly);
        match spec_tick_slot(slots.last(), is_newly_armed(newly, slots.len() - 1)).1 {
            Some(e) => front.push(e),
            None => front,
        }
    }
}

pub open spec fn spec_tick_players(players: Seq<PlayerView>, newly: Seq<Option<usize>>) -> Seq<
    PlayerView,
> {
    Seq::new(
        players.len(),
        |i: int| PlayerView { slots: spec_tick_slots(players[i].slots, newly[i]), ..players[i] },
    )
}

/// Spawn requests all bags emit this tick, in participant order then slot
/// order.
pub open spec fn spec_all_spawns(players: Seq<PlayerView>, newly: Seq<Option<usize>>) -> Seq<
    ExplosionToSpawn,
>
    decreases players.len(),
{
    if players.len() == 0 {
        Seq::empty()
    } else {
        spec_all_spawns(players.drop_last(), newly.drop_last()) + spec_bag_spawns(
            players.last().slots,
            newly.last(),
        )
    }
}

/// Counts every armed fuse down by one tick, skipping slots armed this tick;
/// a fuse reaching zero removes the bomb, releases its slot, and emits an
/// explosion-spawn request at the bomb's last known position.
pub fn bomb_explosion_system(state: &mut GameState, armed: &Vec<Option<usize>>) -> (spawns: Vec<
    ExplosionToSpawn,
>)
    requires
        armed@.len() == old(state)@.players.len(),
        forall|i: int| 0 <= i < old(state)@.players.len()
            ==> player_wf(#[trigger] old(state)@.players[i]),
    ensures
        final(state)@.players == spec_tick_players(old(state)@.players, armed@),
        spawns@ == spec_all_spawns(old(state)@.players, armed@),
        final(state)@.explosions == old(state)@.explosions,
{
    let n = state.players.len();
    let mut spawns: Vec<ExplosionToSpawn> = Vec::new();
    let mut i: usize = 0;
    while i < n
        invariant
            n == state.players@.len(),
            n == old(state).players@.len(),
            armed@.len() == n,
            i <= n,
            forall|j: int| 0 <= j < n ==> player_wf(#[trigger] old(state)@.players[j]),
            forall|j: int| i <= j < n ==> state.players@[j] == old(state).players@[j],
            forall|j: int| 0 <= j < i ==> #[trigger] state.players@[j]@ == (PlayerView {
                slots: spec_tick_slots(old(state)@.players[j].slots, armed@[j]),
                ..old(state)@.players[j]
            }),
            spawns@ == spec_all_spawns(old(state)@.players.subrange(0, i as int), armed@.subrange(0, i as int)),
            state.explosions@ == old(state).explosions@,
        decreases n - i,
    {
        proof {
            assert(state.players@[i as int]@ == old(state)@.players[i as int]);
        }
        let newly = armed[i];
        let mut p = state.players[i];
        let ghost pv0 = p@;
        let mut j: usize = 0;
        while j < BAG_CAPACITY
            invariant
                j <= BAG_CAPACITY,
                player_wf(pv0),
                pv0.slots.len() == BAG_CAPACITY,
                p@.slots.len() == BAG_CAPACITY,
                p.handle == pv0.handle,
                p.x == pv0.x,
                p.y == pv0.y,
                forall|k: int| j <= k < BAG_CAPACITY ==> p@.slots[k] == pv0.slots[k],
                forall|k: int| 0 <= k < j ==> #[trigger] p@.slots[k] == spec_tick_slot(
                    pv0.slots[k],
                    is_newly_armed(newly, k),
                ).0,
                spawns@ == spec_all_spawns(
                    old(state)@.players.subrange(0, i as int),
                    armed@.subrange(0, i as int),
                ) + spec_bag_spawns(pv0.slots.subrange(0, j as int), newly),
            decreases BAG_CAPACITY - j,
        {
            let skip = match newly {
                Some(k) => k == j,
                None => false,
            };
            let ghost spawns_before = spawns@;
            let ghost slots_prefix = pv0.slots.subrange(0, j as int);
            match p.bag.slots[j] {
                BombSlot::Empty => {},
                BombSlot::Armed(b) => {
                    if !skip {
                        if b.fuse_ticks <= 1 {
                            p.bag.slots[j] = BombSlot::Empty;
                            spawns.push(ExplosionToSpawn { x: b.x, y: b.y });
                        } else {
                            p.bag.slots[j] = BombSlot::Armed(
                                Bomb { fuse_ticks: b.fuse_ticks - 1, ..b },
                            );
                        }
                    }
                },
            }
            proof {
                assert(pv0.slots.subrange(0, j + 1).drop_last() =~= slots_prefix);
                assert(pv0.slots.subrange(0, j + 1).last() == pv0.slots[j as int]);
            }
            j = j + 1;
        }
        proof {
            assert(pv0.slots.subrange(0, BAG_CAPACITY as int) =~= pv0.slots);
            assert(p@.slots =~= spec_tick_slots(pv0.slots, newly));
            assert(p@ =~= (PlayerView { slots: spec_tick_slots(pv0.slots, newly), ..pv0 }));
        }
        state.players[i] = p;
        proof {
            assert(old(state)@.players.subrange(0, i + 1).drop_last() =~= old(
                state,
            )@.players.subrange(0, i as int));
            assert(armed@.subrange(0, i + 1).drop_last() =~= armed@.subrange(0, i as int));
            assert(old(state)@.players.subrange(0, i + 1).last() == old(state)@.players[i as int]);
            assert(armed@.subrange(0, i + 1).last() == armed@[i as int]);
        }
        i = i + 1;
    }
    proof {
        assert(old(state)@.players.subrange(0, n as int) =~= old(state)@.players);
        assert(armed@.subrange(0, n as int) =~= armed@);
        assert(state@.players =~= spec_tick_players(old(state)@.players, armed@));
    }
    spawns
}

/// The explosion a spawn request produces: animation at frame zero, timer
/// empty, at the request's position.
pub open spec fn spec_new_explosion(r: ExplosionToSpawn) -> Explosion {
    Explosion { x: r.x, y: r.y, frame: 0, timer_ms_fps: 0 }
}

pub open spec fn spec_spawn_explosions(es: Seq<Explosion>, reqs: Seq<ExplosionToSpawn>) -> Seq<
    Explosion,
> {
    es + Seq::new(reqs.len(), |i: int| spec_new_explosion(reqs[i]))
}

/// Turns this tick's spawn requests into live explosion entities, appended
/// to the arena in request order (so the arena stays in spawn order).
pub fn explosion_to_spawn_system(state: &mut GameState, reqs: &Vec<ExplosionToSpawn>)
    ensures
        final(state)@.explosions == spec_spawn_explosions(old(state)@.explosions, reqs@),
        final(state)@.players == old(state)@.players,
{
    let n = reqs.len();
    let mut i: usize = 0;
    while i < n
        invariant
            n == reqs@.len(),
            i <= n,
            state.players@ == old(state).players@,
            state.explosions@ == spec_spawn_explosions(
                old(state)@.explosions,
                reqs@.subrange(0, i as int),
            ),
        decreases n - i,
    {
        let r = reqs[i];
        state.explosions.push(Explosion { x: r.x, y: r.y, frame: 0, timer_ms_fps: 0 });
        proof {
            assert(state.explosions@ =~= spec_spawn_explosions(
                old(state)@.explosions,
                reqs@.subrange(0, i + 1),
            ));
        }
        i = i + 1;
    }
    proof {
        assert(reqs@.subrange(0, n as int) =~= reqs@);
    }
}

/// An explosion after one tick of animation time: the tick adds `1000`
/// (milliseconds times tick rate) to the timer, and every full 50 ms quantum
/// accumulated advances one frame.
pub open spec fn spec_advance_explosion(e: Explosion, fps: u64) -> Explosion {
    let total = e.timer_ms_fps + MS_PER_SECOND;
    let quantum = EXPLOSION_FRAME_MS * fps;
    Explosion {
        frame: (e.frame + total / quantum) as u32,
        timer_ms_fps: (total % quantum) as u64,
        ..e
    }
}

/// The explosion arena after the animation system: every explosion advances,
/// and those whose frame counter reached `EXPLOSION_FRAMES` are removed; the
/// survivors keep their spawn order.
pub open spec fn spec_animate(es: Seq<Explosion>, fps: u64) -> Seq<Explosion>
    decreases es.len(),
{
    if es.len() == 0 {
        Seq::empty()
    } else {
        let front = spec_animate(es.drop_last(), fps);
        let adv = spec_advance_explosion(es.last(), fps);
        if adv.frame >= EXPLOSION_FRAMES {
            front
        } else {
            front.push(adv)
        }
    }
}

/// A found first-empty index really names an `Empty` slot in range.
pub proof fn lemma_first_empty_is_empty(slots: Seq<BombSlot>, i: int)
    requires
        slots.len() <= usize::MAX,
    ensures
        first_empty_from(slots, i) is Some ==> i <= first_empty_from(slots, i).unwrap()
            < slots.len() && slots[first_empty_from(slots, i).unwrap() as int]
            matches BombSlot::Empty,
    decreases slots.len() - i,
{
    if i < 0 || i >= slots.len() {
        assert(first_empty_from(slots, i) is None);
    } else if (slots[i] matches BombSlot::Empty) {
        assert(first_empty_from(slots, i) == Some((i as usize)));
    } else {
        lemma_first_empty_is_empty(slots, i + 1);
        assert(first_empty_from(slots, i) == first_empty_from(slots, i + 1));
    }
}

/// Arming preserves well-formedness, the handle and the position, and arms
/// only a previously empty slot.
pub proof fn lemma_arm_player_wf(p: PlayerView, frame: InputFrame)
    requires
        player_wf(p),
    ensures
        player_wf(spec_arm_player(p, frame).0),
        spec_arm_player(p, frame).0.handle == p.handle,
        spec_arm_player(p, frame).0.x == p.x,
        spec_arm_player(p, frame).0.y == p.y,
        spec_arm_player(p, frame).1 matches Some(j) ==> j < p.slots.len() && p.slots[j as int]
            matches BombSlot::Empty,
{
    if spec_wants_to_arm(frame) {
        match spec_first_empty(p.slots) {
            Some(j) => {
                lemma_first_empty_is_empty(p.slots, 0);
                let armed = spec_arm_player(p, frame).0;
                assert forall|k: int| 0 <= k < armed.slots.len() implies slot_wf(
                    #[trigger] armed.slots[k],
                ) by {
                    if k != j {
                        assert(armed.slots[k] == p.slots[k]);
                    }
                }
            },
            None => {},
        }
    }
}

/// The countdown preserves well-formedness, the handle and the position.
pub proof fn lemma_tick_player_wf(p: PlayerView, newly: Option<usize>)
    requires
        player_wf(p),
    ensures
        player_wf(PlayerView { slots: spec_tick_slots(p.slots, newly), ..p }),
{
    assert(forall|k: int| 0 <= k < p.slots.len() ==> slot_wf(
        #[trigger] spec_tick_slots(p.slots, newly)[k],
    ));
}

/// Every spawn request a bag emits lies inside the playing field.
pub proof fn lemma_bag_spawns_in_bound(slots: Seq<BombSlot>, newly: Option<usize>)
    requires
        forall|k: int| 0 <= k < slots.len() ==> slot_wf(#[trigger] slots[k]),
    ensures
        forall|k: int| 0 <= k < spec_bag_spawns(slots, newly).len() ==> in_bound(
            (#[trigger] spec_bag_spawns(slots, newly)[k]).x as int,
        ) && in_bound(spec_bag_spawns(slots, newly)[k].y as int),
    decreases slots.len(),
{
    if slots.len() > 0 {
        assert forall|k: int| 0 <= k < slots.drop_last().len() implies slot_wf(
            #[trigger] slots.drop_last()[k],
        ) by {
            assert(slots.drop_last()[k] == slots[k]);
        }
        lemma_bag_spawns_in_bound(slots.drop_last(), newly);
        let front = spec_bag_spawns(slots.drop_last(), newly);
        let all = spec_bag_spawns(slots, newly);
        assert(slot_wf(slots.last()));
        assert forall|k: int| 0 <= k < all.len() implies in_bound(
            (#[trigger] all[k]).x as int,
        ) && in_bound(all[k].y as int) by {
            match spec_tick_slot(slots.last(), is_newly_armed(newly, slots.len() - 1)).1 {
                Some(e) => {
                    if k < front.len() {
                        assert(all[k] == front[k]);
                    } else {
                        assert(all[k] == e);
                    }
                },
                None => {
                    assert(all[k] == front[k]);
                },
            }
        }
    }
}

/// Every spawn request any bag emits lies inside the playing field.
pub proof fn lemma_all_spawns_in_bound(players: Seq<PlayerView>, newly: Seq<Option<usize>>)
    requires
        forall|i: int| 0 <= i < players.len() ==> player_wf(#[trigger] players[i]),
    ensures
        forall|k: int| 0 <= k < spec_all_spawns(players, newly).len() ==> in_bound(
            (#[trigger] spec_all_spawns(players, newly)[k]).x as int,
        ) && in_bound(spec_all_spawns(players, newly)[k].y as int),
    decreases players.len(),
{
    if players.len() > 0 {
        assert forall|i: int| 0 <= i < players.drop_last().len() implies player_wf(
            #[trigger] players.drop_last()[i],
        ) by {
            assert(players.drop_last()[i] == players[i]);
        }
        lemma_all_spawns_in_bound(players.drop_last(), newly.drop_last());
        assert(player_wf(players.last()));
        lemma_bag_spawns_in_bound(players.last().slots, newly.last());
        let front = spec_all_spawns(players.drop_last(), newly.drop_last());
        let bag = spec_bag_spawns(players.last().slots, newly.last());
        let all = spec_all_spawns(players, newly);
        assert forall|k: int| 0 <= k < all.len() implies in_bound(
            (#[trigger] all[k]).x as int,
        ) && in_bound(all[k].y as int) by {
            if k < front.len() {
                assert(all[k] == front[k]);
            } else {
                assert(all[k] == bag[k - front.len()]);
            }
        }
    }
}

/// Advancing a well-formed explosion keeps it well formed while it survives.
pub proof fn lemma_advance_explosion_wf(e: Explosion, fps: u64)
    requires
        explosion_wf(e, fps),
        1 <= fps,
    ensures
        spec_advance_explosion(e, fps).x == e.x,
        spec_advance_explosion(e, fps).y == e.y,
        spec_advance_explosion(e, fps).frame >= e.frame,
        spec_advance_explosion(e, fps).frame < EXPLOSION_FRAMES ==> explosion_wf(
            spec_advance_explosion(e, fps),
            fps,
        ),
{
    let total = e.timer_ms_fps + MS_PER_SECOND;
    let quantum = EXPLOSION_FRAME_MS * fps;
    lemma_multiply_divide_lt(total as int, quantum as int, 21);
    lemma_mod_bound(total as int, quantum as int);
    assert(0 <= total / (quantum as int) <= 20);
}

/// The animation system keeps every surviving explosion well formed.
pub proof fn lemma_animate_wf(es: Seq<Explosion>, fps: u64)
    requires
        forall|i: int| 0 <= i < es.len() ==> explosion_wf(#[trigger] es[i], fps),
        1 <= fps,
    ensures
        forall|i: int| 0 <= i < spec_animate(es, fps).len() ==> explosion_wf(
            #[trigger] spec_animate(es, fps)[i],
            fps,
        ),
    decreases es.len(),
{
    if es.len() > 0 {
        assert forall|i: int| 0 <= i < es.drop_last().len() implies explosion_wf(
            #[trigger] es.drop_last()[i],
            fps,
        ) by {
            assert(es.drop_last()[i] == es[i]);
        }
        lemma_animate_wf(es.drop_last(), fps);
        assert(explosion_wf(es.last(), fps));
        lemma_advance_explosion_wf(es.last(), fps);
        let front = spec_animate(es.drop_last(), fps);
        let adv = spec_advance_explosion(es.last(), fps);
        let all = spec_animate(es, fps);
        assert forall|i: int| 0 <= i < all.len() implies explosion_wf(#[trigger] all[i], fps) by {
            if adv.frame >= EXPLOSION_FRAMES {
                assert(all[i] == front[i]);
            } else {
                if i < front.len() {
                    assert(all[i] == front[i]);
                } else {
                    assert(all[i] == adv);
                }
            }
        }
    }
}

/// A slot that detonates this tick has its spawn request in the bag's
/// emitted sequence.
pub proof fn lemma_bag_spawn_contains(slots: Seq<BombSlot>, newly: Option<usize>, j: int)
    requires
        0 <= j < slots.len(),
        spec_tick_slot(slots[j], is_newly_armed(newly, j)).1 is Some,
    ensures
        spec_bag_spawns(slots, newly).contains(
            spec_tick_slot(slots[j], is_newly_armed(newly, j)).1.unwrap(),
        ),
    decreases slots.len(),
{
    let e = spec_tick_slot(slots[j], is_newly_armed(newly, j)).1.unwrap();
    let front = spec_bag_spawns(slots.drop_last(), newly);
    let all = spec_bag_spawns(slots, newly);
    if j == slots.len() - 1 {
        assert(all.last() == e);
        assert(all.contains(e));
    } else {
        assert(slots.drop_last()[j] == slots[j]);
        lemma_bag_spawn_contains(slots.drop_last(), newly, j);
        let i = choose|i: int| 0 <= i < front.len() && front[i] == e;
        assert(all[i] == e);
        assert(all.contains(e));
    }
}

/// A spawn request some bag emits is in the tick's combined sequence.
pub proof fn lemma_all_spawns_contains(
    players: Seq<PlayerView>,
    newly: Seq<Option<usize>>,
    p: int,
    e: ExplosionToSpawn,
)
    requires
        0 <= p < players.len(),
        newly.len() == players.len(),
        spec_bag_spawns(players[p].slots, newly[p]).contains(e),
    ensures
        spec_all_spawns(players, newly).contains(e),
    decreases players.len(),
{
    let front = spec_all_spawns(players.drop_last(), newly.drop_last());
    let bag = spec_bag_spawns(players.last().slots, newly.last());
    let all = spec_all_spawns(players, newly);
    if p == players.len() - 1 {
        let i = choose|i: int| 0 <= i < bag.len() && bag[i] == e;
        assert(all[front.len() + i] == e);
        assert(all.contains(e));
    } else {
        assert(players.drop_last()[p] == players[p]);
        assert(newly.drop_last()[p] == newly[p]);
        lemma_all_spawns_contains(players.drop_last(), newly.drop_last(), p, e);
        let i = choose|i: int| 0 <= i < front.len() && front[i] == e;
        assert(all[i] == e);
        assert(all.contains(e));
    }
}

/// An explosion after `k` ticks of animation time.
pub open spec fn spec_advance_n(e: Explosion, fps: u64, k: nat) -> Explosion
    decreases k,
{
    if k == 0 {
        e
    } else {
        spec_advance_explosion(spec_advance_n(e, fps, (k - 1) as nat), fps)
    }
}

/// The animation schedule of a freshly spawned explosion at 60 ticks per
/// second: the frame counter advances exactly every third tick (the ticks on
/// which a full 50 ms quantum completes), so after `k` ticks the frame is
/// `k / 3` and the timer holds the remainder.
pub proof fn lemma_explosion_schedule(x: i32, y: i32, k: nat)
    requires
        k <= 1000000,
    ensures
        spec_advance_n(Explosion { x, y, frame: 0, timer_ms_fps: 0 }, 60, k).frame == k as int / 3,
        spec_advance_n(Explosion { x, y, frame: 0, timer_ms_fps: 0 }, 60, k).timer_ms_fps == (
        k as int % 3) * 1000,
        spec_advance_n(Explosion { x, y, frame: 0, timer_ms_fps: 0 }, 60, k).x == x,
        spec_advance_n(Explosion { x, y, frame: 0, timer_ms_fps: 0 }, 60, k).y == y,
    decreases k,
{
    if k > 0 {
        lemma_explosion_schedule(x, y, (k - 1) as nat);
        let prev = spec_advance_n(Explosion { x, y, frame: 0, timer_ms_fps: 0 }, 60, (k - 1) as nat);
        assert(spec_advance_n(Explosion { x, y, frame: 0, timer_ms_fps: 0 }, 60, k)
            == spec_advance_explosion(prev, 60));
        let quantum = EXPLOSION_FRAME_MS * 60;
        let total = prev.timer_ms_fps + MS_PER_SECOND;
        let r = (k - 1) as int % 3;
        assert(0 <= r < 3);
        assert(prev.timer_ms_fps == r * 1000);
        assert(prev.frame == (k - 1) as int / 3);
        assert(k as int == ((k - 1) as int / 3) * 3 + r + 1);
        if r == 2 {
            lemma_div_by_self(quantum as int);
            lemma_mod_self_0(quantum as int);
            assert(k as int / 3 == (k - 1) as int / 3 + 1 && k as int % 3 == 0);
        } else {
            lemma_basic_div(total as int, quantum as int);
            lemma_small_mod(total as nat, quantum as nat);
            assert(k as int / 3 == (k - 1) as int / 3 && k as int % 3 == r + 1);
        }
    }
}

/// An explosion completes its animation after exactly sixteen frame
/// advances, each gated by a fixed 50 ms quantum accumulated from tick
/// deltas: at 60 ticks per second it reaches the removal frame on its 48th
/// tick of animation time and on no earlier one.
pub proof fn lemma_explosion_lifetime(x: i32, y: i32, k: nat)
    requires
        k <= 1000000,
    ensures
        k < 48 ==> spec_advance_n(Explosion { x, y, frame: 0, timer_ms_fps: 0 }, 60, k).frame
            < EXPLOSION_FRAMES,
        k >= 48 ==> spec_advance_n(Explosion { x, y, frame: 0, timer_ms_fps: 0 }, 60, k).frame
            >= EXPLOSION_FRAMES,
{
    lemma_explosion_schedule(x, y, k);
}

/// Advances one explosion by one tick of animation time.
fn advance_explosion(e: &Explosion, fps: u64) -> (adv: Explosion)
    requires
        explosion_wf(*e, fps),
        1 <= fps <= u32::MAX,
    ensures
        adv == spec_advance_explosion(*e, fps),
        adv.frame < EXPLOSION_FRAMES ==> explosion_wf(adv, fps),
{
    let quantum = EXPLOSION_FRAME_MS * fps;
    let total = e.timer_ms_fps + MS_PER_SECOND;
    let q = total / quantum;
    proof {
        lemma_multiply_divide_lt(total as int, quantum as int, 21);
        lemma_mod_bound(total as int, quantum as int);
    }
    Explosion { frame: e.frame + (q as u32), timer_ms_fps: total % quantum, ..*e }
}

/// Advances every explosion's animation by one tick and removes those that
/// completed their sixteenth frame. The last mutating system of the tick.
pub fn explosion_animation_system(state: &mut GameState, fps: u64)
    requires
        forall|i: int| 0 <= i < old(state)@.explosions.len()
            ==> explosion_wf(#[trigger] old(state)@.explosions[i], fps),
        1 <= fps <= u32::MAX,
    ensures
        final(state)@.explosions == spec_animate(old(state)@.explosions, fps),
        final(state)@.players == old(state)@.players,
        forall|i: int| 0 <= i < final(state)@.explosions.len()
            ==> explosion_wf(#[trigger] final(state)@.explosions[i], fps),
{
    let n = state.explosions.len();
    let mut out: Vec<Explosion> = Vec::new();
    let mut i: usize = 0;
    while i < n
        invariant
            n == state.explosions@.len(),
            state.explosions@ == old(state).explosions@,
            state.players@ == old(state).players@,
            i <= n,
            forall|j: int| 0 <= j < n ==> explosion_wf(#[trigger] old(state)@.explosions[j], fps),
            1 <= fps <= u32::MAX,
            out@ == spec_animate(old(state)@.explosions.subrange(0, i as int), fps),
            forall|j: int| 0 <= j < out@.len() ==> explosion_wf(#[trigger] out@[j], fps),
        decreases n - i,
    {
        let adv = advance_explosion(&state.explosions[i], fps);
        if adv.frame < EXPLOSION_FRAMES {
            out.push(adv);
        }
        proof {
            assert(old(state)@.explosions.subrange(0, i + 1).drop_last() =~= old(
                state,
            )@.explosions.subrange(0, i as int));
            assert(old(state)@.explosions.subrange(0, i + 1).last() == old(
                state,
            )@.explosions[i as int]);
        }
        i = i + 1;
    }
    proof {
        assert(old(state)@.explosions.subrange(0, n as int) =~= old(state)@.explosions);
    }
    state.explosions = out;
}

} // verus!
