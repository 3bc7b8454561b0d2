//! Entities of the simulation: participants with their bomb bags, live
//! explosions, and the whole game state they form.
//!
//! Entities live in arenas addressed by stable integer ids: participants by
//! their dense handle, explosions in spawn order. Every field is plain
//! integer data, so a state can be saved, replayed and digested exactly.
//! Each type has a mathematical view (`PlayerView`, `StateView`) that the
//! contracts and the per-tick transition specification are stated over.

use vstd::prelude::*;
use crate::constants::{MAX_PLAYERS, BAG_CAPACITY, FUSE_TICKS, POSITION_BOUND,
    EXPLOSION_FRAME_MS, EXPLOSION_FRAMES};

verus! {

/// An armed bomb occupying a bag slot: the ticks left on its fuse and the
/// position it was placed at (a bomb does not move once placed).
#[derive(Clone, Copy, PartialEq, Eq, Debug)]
pub struct Bomb {
    pub fuse_ticks: u32,
    pub x: i32,
    pub y: i32,
}

/// One slot of a bomb bag.
///
/// Bag state machine, by explicit decision: a slot is `Armed` exactly while
/// the bomb placed from it is cooking in the world, so the count of `Armed`
/// slots equals the count of live bombs. Arming is level-triggered (each tick
/// the fire bit is held confirmed and an `Empty` slot exists, the first such
/// slot arms), a detonating slot is released back to `Empty`, and a round
/// starts with every slot `Empty`: the initial stock is the bag's free
/// capacity.
#[derive(Clone, Copy, PartialEq, Eq, Debug)]
pub enum BombSlot {
    Empty,
    Armed(Bomb),
}

/// A participant's fixed-capacity ordered sequence of bomb slots.
#[derive(Clone, Copy, PartialEq, Eq, Debug)]
pub struct BombBag {
    pub slots: [BombSlot; 9],
}

/// A participant: stable dense handle, position in centi-units, and bomb bag.
#[derive(Clone, Copy, PartialEq, Eq, Debug)]
pub struct Player {
    pub handle: usize,
    pub x: i32,
    pub y: i32,
    pub bag: BombBag,
}

/// A transient animated explosion. `timer_ms_fps` accumulates elapsed tick
/// time in milliseconds times the tick rate, so one tick adds exactly 1000
/// whatever the rate: the 50 ms frame quantum stays exact in integers.
#[derive(Clone, Copy, PartialEq, Eq, Debug)]
pub struct Explosion {
    pub x: i32,
    pub y: i32,
    pub frame: u32,
    pub timer_ms_fps: u64,
}

/// A request, emitted by a detonating bomb, to spawn an explosion at the
/// bomb's last known position.
#[derive(Clone, Copy, PartialEq, Eq, Debug)]
pub struct ExplosionToSpawn {
    pub x: i32,
    pub y: i32,
}

/// The whole rollback-tracked state of one tick: participants by handle,
/// explosions in spawn order.
pub struct GameState {
    pub players: Vec<Player>,
    pub explosions: Vec<Explosion>,
}

/// Mathematical value of a participant: the bag is a sequence of slots.
#[verifier::ext_equal]
pub struct PlayerView {
    pub handle: usize,
    pub x: i32,
    pub y: i32,
    pub slots: Seq<BombSlot>,
}

impl View for Player {
    type V = PlayerView;

    open spec fn view(&self) -> PlayerView {
        PlayerView { handle: self.handle, x: self.x, y: self.y, slots: self.bag.slots@ }
    }
}

pub open spec fn players_view(ps: Seq<Player>) -> Seq<PlayerView> {
    Seq::new(ps.len(), |i: int| ps[i]@)
}

/// Mathematical value of a `GameState`.
#[verifier::ext_equal]
pub struct StateView {
    pub players: Seq<PlayerView>,
    pub explosions: Seq<Explosion>,
}

impl View for GameState {
    type V = StateView;

    open spec fn view(&self) -> StateView {
        StateView { players: players_view(self.players@), explosions: self.explosions@ }
    }
}

/// Whether a slot currently holds an armed bomb.
pub open spec fn slot_armed(s: BombSlot) -> bool {
    match s {
        BombSlot::Empty => false,
        BombSlot::Armed(_) => true,
    }
}

/// The bomb an armed slot holds (a placeholder for an empty slot).
pub open spec fn slot_bomb(s: BombSlot) -> Bomb {
    match s {
        BombSlot::Empty => Bomb { fuse_ticks: 0, x: 0, y: 0 },
        BombSlot::Armed(b) => b,
    }
}

/// A coordinate inside the playing field.
pub open spec fn in_bound(v: int) -> bool {
    -POSITION_BOUND <= v <= POSITION_BOUND
}

pub open spec fn bomb_wf(b: Bomb) -> bool {
    &&& 1 <= b.fuse_ticks <= FUSE_TICKS
    &&& in_bound(b.x as int)
    &&& in_bound(b.y as int)
}

pub open spec fn slot_wf(s: BombSlot) -> bool {
    match s {
        BombSlot::Empty => true,
        BombSlot::Armed(b) => bomb_wf(b),
    }
}

pub open spec fn player_wf(p: PlayerView) -> bool {
    &&& p.slots.len() == BAG_CAPACITY
    &&& in_bound(p.x as int)
    &&& in_bound(p.y as int)
    &&& forall|i: int| 0 <= i < p.slots.len() ==> slot_wf(#[trigger] p.slots[i])
}

/// An explosion is removed as soon as its frame counter reaches
/// `EXPLOSION_FRAMES`, and its accumulator always holds less than one full
/// frame quantum (`EXPLOSION_FRAME_MS` milliseconds times the tick rate).
pub open spec fn explosion_wf(e: Explosion, fps: u64) -> bool {
    &&& e.frame < EXPLOSION_FRAMES
    &&& e.timer_ms_fps < EXPLOSION_FRAME_MS * fps
    &&& in_bound(e.x as int)
    &&& in_bound(e.y as int)
}

impl StateView {
    /// Well-formedness of a state under a given tick rate: a valid roster of
    /// dense handles, every position inside the field, every fuse live, every
    /// explosion mid-animation.
    pub open spec fn wf(self, fps: u64) -> bool {
        &&& 1 <= self.players.len() <= MAX_PLAYERS
        &&& forall|i: int| 0 <= i < self.players.len()
            ==> (#[trigger] self.players[i]).handle == i && player_wf(self.players[i])
        &&& forall|i: int| 0 <= i < self.explosions.len()
            ==> explosion_wf(#[trigger] self.explosions[i], fps)
        &&& 1 <= fps
    }
}

impl GameState {
    /// An exact copy, element for element: rollback snapshots and
    /// re-simulation both rely on copies being indistinguishable from the
    /// original.
    pub fn clone_state(&self) -> (c: GameState)
        ensures
            c@ == self@,
    {
        let mut players: Vec<Player> = Vec::new();
        let mut i: usize = 0;
        let n = self.players.len();
        while i < n
            invariant
                i <= n,
                n == self.players@.len(),
                players@ == self.players@.subrange(0, i as int),
            decreases n - i,
        {
            players.push(self.players[i]);
            proof {
                assert(players@ =~= self.players@.subrange(0, i + 1));
            }
            i = i + 1;
        }
        let mut explosions: Vec<Explosion> = Vec::new();
        let mut k: usize = 0;
        let m = self.explosions.len();
        while k < m
            invariant
                k <= m,
                m == self.explosions@.len(),
                explosions@ == self.explosions@.subrange(0, k as int),
            decreases m - k,
        {
            explosions.push(self.explosions[k]);
            proof {
                assert(explosions@ =~= self.explosions@.subrange(0, k + 1));
            }
            k = k + 1;
        }
        let c = GameState { players, explosions };
        proof {
            assert(self.players@.subrange(0, n as int) =~= self.players@);
            assert(self.explosions@.subrange(0, m as int) =~= self.explosions@);
            assert(c@ =~= self@);
        }
        c
    }
}

impl Default for BombBag {
    /// A fresh bag: all nine slots empty (see the state-machine note on
    /// `BombSlot` for why no slot starts armed).
    fn default() -> (bag: BombBag)
        ensures
            bag.slots@ == Seq::new(BAG_CAPACITY as nat, |i: int| BombSlot::Empty),
    {
        let bag = BombBag { slots: [BombSlot::Empty; 9] };
        proof {
            assert(bag.slots@ =~= Seq::new(BAG_CAPACITY as nat, |i: int| BombSlot::Empty));
        }
        bag
    }
}

} // verus!
