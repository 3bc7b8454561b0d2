//! Participant spawning and per-tick movement.
//!
//! Movement resolves a direction from the input mask, disallows diagonals by
//! keeping only the axis with the larger displacement (ties keep the vertical
//! axis, as the concrete case `{up, right} -> (0, +0.13)` fixes), applies the
//! fixed per-tick speed, and clamps into the square playing field.

use vstd::prelude::*;
use crate::constants::{MAX_PLAYERS, MOVE_SPEED, POSITION_BOUND};
use crate::components::{Player, PlayerView, BombBag, BombSlot, GameState, in_bound, player_wf};
use crate::input::{InputFrame, spec_dir_x, spec_dir_y, spec_resolved_bits, resolved_bits,
    control_direction};

verus! {

pub open spec fn abs_val(v: int) -> int {
    if v < 0 {
        -v
    } else {
        v
    }
}

/// A coordinate clamped into the playing field.
pub open spec fn clamp_coord(v: int) -> int {
    if v < -POSITION_BOUND {
        -POSITION_BOUND as int
    } else if v > POSITION_BOUND {
        POSITION_BOUND as int
    } else {
        v
    }
}

/// Displacement one tick of the given mask produces, in centi-units, after
/// the diagonal rule: the axis with the larger magnitude wins and the other
/// is zeroed; on a tie the vertical axis wins.
pub open spec fn spec_move_delta(bits: u8) -> (int, int) {
    let dx = spec_dir_x(bits) * MOVE_SPEED;
    let dy = spec_dir_y(bits) * MOVE_SPEED;
    if abs_val(dx) > abs_val(dy) {
        (dx, 0int)
    } else {
        (0int, dy)
    }
}

/// Where one participant stands after one tick of the given mask. A mask
/// whose direction cancels to zero leaves the position untouched; any other
/// mask moves along exactly one axis and is then clamped into the field.
pub open spec fn spec_move_player(p: PlayerView, bits: u8) -> PlayerView {
    if spec_dir_x(bits) == 0 && spec_dir_y(bits) == 0 {
        p
    } else {
        let d = spec_move_delta(bits);
        PlayerView {
            x: clamp_coord(p.x + d.0) as i32,
            y: clamp_coord(p.y + d.1) as i32,
            ..p
        }
    }
}

/// All participants after one tick of movement: participant `i` moves by
/// frame `i`'s resolved mask.
pub open spec fn spec_move_players(players: Seq<PlayerView>, frames: Seq<InputFrame>) -> Seq<
    PlayerView,
> {
    Seq::new(players.len(), |i: int| spec_move_player(players[i], spec_resolved_bits(frames[i])))
}

/// Movement is never diagonal: whatever the mask, at most one axis of the
/// per-tick displacement is non-zero; and whenever the resolved direction
/// does not cancel to zero, exactly one axis is non-zero.
pub proof fn lemma_no_diagonal_movement(bits: u8)
    ensures
        spec_move_delta(bits).0 == 0 || spec_move_delta(bits).1 == 0,
        spec_dir_x(bits) != 0 || spec_dir_y(bits) != 0 ==> !(spec_move_delta(bits).0 == 0
            && spec_move_delta(bits).1 == 0),
{
}

/// One tick of movement keeps a participant inside the playing field, from
/// any starting position inside it, whatever the mask.
pub proof fn lemma_movement_stays_in_bound(p: PlayerView, bits: u8)
    requires
        in_bound(p.x as int),
        in_bound(p.y as int),
    ensures
        in_bound(spec_move_player(p, bits).x as int),
        in_bound(spec_move_player(p, bits).y as int),
{
}

/// Moves one participant by one tick of the given frame.
pub fn move_player(p: &Player, frame: &InputFrame) -> (moved: Player)
    requires
        player_wf(p@),
    ensures
        moved@ == spec_move_player(p@, spec_resolved_bits(*frame)),
        player_wf(moved@),
{
    let bits = resolved_bits(frame);
    let (dx, dy) = control_direction(&bits);
    if dx == 0 && dy == 0 {
        return *p;
    }
    let mx = dx * MOVE_SPEED;
    let my = dy * MOVE_SPEED;
    let ax = if mx < 0 { -mx } else { mx };
    let ay = if my < 0 { -my } else { my };
    let (sx, sy) = if ax > ay { (mx, 0) } else { (0, my) };
    let nx = clamp_exec(p.x + sx);
    let ny = clamp_exec(p.y + sy);
    Player { x: nx, y: ny, ..*p }
}

/// Clamps a coordinate into the playing field.
fn clamp_exec(v: i32) -> (r: i32)
    requires
        -POSITION_BOUND - MOVE_SPEED <= v <= POSITION_BOUND + MOVE_SPEED,
    ensures
        r as int == clamp_coord(v as int),
{
    if v < -POSITION_BOUND {
        -POSITION_BOUND
    } else if v > POSITION_BOUND {
        POSITION_BOUND
    } else {
        v
    }
}

/// Moves every participant by its frame's resolved mask: confirmed and
/// predicted masks verbatim, disconnected participants not at all. This is
/// the first system of the per-tick pipeline.
pub fn move_players(state: &mut GameState, frames: &Vec<InputFrame>)
    requires
        frames@.len() == old(state)@.players.len(),
        forall|i: int| 0 <= i < old(state)@.players.len()
            ==> player_wf(#[trigger] old(state)@.players[i]),
    ensures
        final(state)@.players == spec_move_players(old(state)@.players, frames@),
        final(state)@.explosions == old(state)@.explosions,
{
    let n = state.players.len();
    let mut i: usize = 0;
    while i < n
        invariant
            n == state.players@.len(),
            n == old(state).players@.len(),
            frames@.len() == n,
            i <= n,
            forall|j: int| 0 <= j < n ==> player_wf(#[trigger] old(state)@.players[j]),
            forall|j: int| i <= j < n ==> state.players@[j] == old(state).players@[j],
            forall|j: int| 0 <= j < i ==> #[trigger] state.players@[j]@ == spec_move_player(
                old(state)@.players[j],
                spec_resolved_bits(frames@[j]),
            ),
            state.explosions@ == old(state).explosions@,
        decreases n - i,
    {
        proof {
            assert(state.players@[i as int]@ == old(state)@.players[i as int]);
        }
        let moved = move_player(&state.players[i], &frames[i]);
        state.players[i] = moved;
        i = i + 1;
    }
    proof {
        assert(state@.players =~= spec_move_players(old(state)@.players, frames@));
    }
}

/// The participant a round starts with: at the origin with an all-empty bag.
pub open spec fn is_initial_player(p: PlayerView, i: int) -> bool {
    &&& p.handle == i
    &&& p.x == 0
    &&& p.y == 0
    &&& p.slots == Seq::new(9, |j: int| BombSlot::Empty)
}

/// Creates the round's participants: handles dense in `[0, num)`, all at the
/// origin with fresh bags.
pub fn spawn_players(num: usize) -> (players: Vec<Player>)
    requires
        1 <= num <= MAX_PLAYERS,
    ensures
        players@.len() == num,
        forall|i: int| 0 <= i < num ==> is_initial_player(#[trigger] players@[i]@, i),
        forall|i: int| 0 <= i < num
            ==> (#[trigger] players@[i]@).handle == i && player_wf(players@[i]@),
{
    let mut players: Vec<Player> = Vec::new();
    let mut i: usize = 0;
    while i < num
        invariant
            i <= num,
            players@.len() == i,
            forall|j: int| 0 <= j < i ==> is_initial_player(#[trigger] players@[j]@, j),
        decreases num - i,
    {
        let bag = BombBag { slots: [BombSlot::Empty; 9] };
        proof {
            assert(bag.slots@ =~= Seq::new(9, |j: int| BombSlot::Empty));
        }
        players.push(Player { handle: i, x: 0, y: 0, bag });
        i = i + 1;
    }
    proof {
        assert forall|i: int| 0 <= i < num implies (#[trigger] players@[i]@).handle == i
            && player_wf(players@[i]@) by {
            assert(is_initial_player(players@[i]@, i));
            assert(forall|j: int| 0 <= j < 9 ==> players@[i]@.slots[j] == BombSlot::Empty);
        }
    }
    players
}

} // verus!
