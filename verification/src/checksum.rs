//! The checksum registry: a per-tick digest over the byte-exact value of
//! every rollback-tracked component, taken in a fixed stable order
//! (participants by ascending handle, then explosions by ascending spawn
//! id), never in insertion or address order.
//!
//! The digest is a 64-bit FNV-1a fold over a canonical word encoding of the
//! state. Peers exchange these snapshots; comparison is the transport
//! layer's job and a mismatch is a diagnostic, never a mutation.

use vstd::prelude::*;
use crate::constants::BAG_CAPACITY;
use crate::components::{BombSlot, Explosion, GameState, PlayerView, StateView, in_bound,
    player_wf};

verus! {

/// FNV-1a 64-bit offset basis.
pub const FNV_OFFSET: u64 = 14695981039346656037;

/// FNV-1a 64-bit prime.
pub const FNV_PRIME: u64 = 1099511628211;

/// One FNV-1a step: fold one word into the running hash (xor, then a
/// multiply that wraps at 64 bits).
pub open spec fn spec_fnv_step(h: u64, w: u64) -> u64 {
    (((h ^ w) as u128) * (FNV_PRIME as u128)) as u64
}

/// FNV-1a over a word sequence, folded left to right from the offset basis.
pub open spec fn spec_fnv1a(words: Seq<u64>) -> u64
    decreases words.len(),
{
    if words.len() == 0 {
        FNV_OFFSET
    } else {
        spec_fnv_step(spec_fnv1a(words.drop_last()), words.last())
    }
}

/// A coordinate shifted to be non-negative, so its word is exact.
pub open spec fn spec_coord_word(v: int) -> u64 {
    (v + 250000) as u64
}

/// Canonical words of one bag slot: a tag, then the armed bomb's fields.
pub open spec fn spec_slot_words(s: BombSlot) -> Seq<u64> {
    match s {
        BombSlot::Empty => seq![0u64],
        BombSlot::Armed(b) => seq![
            1u64,
            b.fuse_ticks as u64,
            spec_coord_word(b.x as int),
            spec_coord_word(b.y as int),
        ],
    }
}

pub open spec fn spec_slots_words(slots: Seq<BombSlot>) -> Seq<u64>
    decreases slots.len(),
{
    if slots.len() == 0 {
        Seq::empty()
    } else {
        spec_slots_words(slots.drop_last()) + spec_slot_words(slots.last())
    }
}

/// Canonical words of one participant: handle, position, then every slot in
/// fixed order.
pub open spec fn spec_player_words(p: PlayerView) -> Seq<u64> {
    seq![p.handle as u64, spec_coord_word(p.x as int), spec_coord_word(p.y as int)]
        + spec_slots_words(p.slots)
}

pub open spec fn spec_players_words(ps: Seq<PlayerView>) -> Seq<u64>
    decreases ps.len(),
{
    if ps.len() == 0 {
        Seq::empty()
    } else {
        spec_players_words(ps.drop_last()) + spec_player_words(ps.last())
    }
}

/// Canonical words of one explosion: position, frame, timer.
pub open spec fn spec_explosion_words(e: Explosion) -> Seq<u64> {
    seq![
        spec_coord_word(e.x as int),
        spec_coord_word(e.y as int),
        e.frame as u64,
        e.timer_ms_fps,
    ]
}

pub open spec fn spec_explosions_words(es: Seq<Explosion>) -> Seq<u64>
    decreases es.len(),
{
    if es.len() == 0 {
        Seq::empty()
    } else {
        spec_explosions_words(es.drop_last()) + spec_explosion_words(es.last())
    }
}

/// Canonical word encoding of a whole state, in the fixed stable order.
pub open spec fn spec_state_words(s: StateView) -> Seq<u64> {
    spec_players_words(s.players) + spec_explosions_words(s.explosions)
}

/// The per-tick digest of a state.
pub open spec fn spec_digest(s: StateView) -> u64 {
    spec_fnv1a(spec_state_words(s))
}

/// The coordinates the digest encodes must lie in the playing field; the
/// state well-formedness invariant guarantees this.
pub open spec fn digest_pre(s: StateView) -> bool {
    &&& forall|i: int| 0 <= i < s.players.len() ==> player_wf(#[trigger] s.players[i])
    &&& forall|i: int| 0 <= i < s.explosions.len() ==> in_bound(
        (#[trigger] s.explosions[i]).x as int,
    ) && in_bound(s.explosions[i].y as int)
}

/// A per-tick checksum snapshot: the tick it was computed for and the digest
/// of the whole rollback-tracked state after that tick.
#[derive(Clone, Copy, PartialEq, Eq, Debug)]
pub struct Checksum {
    pub tick: usize,
    pub digest: u64,
}

fn fnv_step(h: u64, w: u64) -> (r: u64)
    ensures
        r == spec_fnv_step(h, w),
{
    #[verifier::truncate]
    ((((h ^ w) as u128) * (FNV_PRIME as u128)) as u64)
}

fn coord_word(v: i32) -> (w: u64)
    requires
        in_bound(v as int),
    ensures
        w == spec_coord_word(v as int),
{
    (v + 250000) as u64
}

/// Appends one slot's canonical words.
fn push_slot_words(words: &mut Vec<u64>, s: &BombSlot)
    requires
        match *s {
            BombSlot::Empty => true,
            BombSlot::Armed(b) => in_bound(b.x as int) && in_bound(b.y as int),
        },
    ensures
        final(words)@ == old(words)@ + spec_slot_words(*s),
{
    match s {
        BombSlot::Empty => {
            words.push(0);
        },
        BombSlot::Armed(b) => {
            words.push(1);
            words.push(b.fuse_ticks as u64);
            let wx = coord_word(b.x);
            words.push(wx);
            let wy = coord_word(b.y);
            words.push(wy);
        },
    }
    proof {
        assert(words@ =~= old(words)@ + spec_slot_words(*s));
    }
}

/// Appends one participant's canonical words.
fn push_player_words(words: &mut Vec<u64>, p: &crate::components::Player)
    requires
        player_wf(p@),
    ensures
        final(words)@ == old(words)@ + spec_player_words(p@),
{
    words.push(p.handle as u64);
    let wx = coord_word(p.x);
    words.push(wx);
    let wy = coord_word(p.y);
    words.push(wy);
    let mut j: usize = 0;
    while j < BAG_CAPACITY
        invariant
            j <= BAG_CAPACITY,
            player_wf(p@),
            words@ == old(words)@ + seq![
                p@.handle as u64,
                spec_coord_word(p@.x as int),
                spec_coord_word(p@.y as int),
            ] + spec_slots_words(p@.slots.subrange(0, j as int)),
        decreases BAG_CAPACITY - j,
    {
        push_slot_words(words, &p.bag.slots[j]);
        proof {
            assert(p@.slots.subrange(0, j + 1).drop_last() =~= p@.slots.subrange(0, j as int));
            assert(p@.slots.subrange(0, j + 1).last() == p@.slots[j as int]);
        }
        j = j + 1;
    }
    proof {
        assert(p@.slots.subrange(0, BAG_CAPACITY as int) =~= p@.slots);
        assert(words@ =~= old(words)@ + spec_player_words(p@));
    }
}

/// Computes the digest of the whole state: every rollback-tracked component
/// of every entity, participants in ascending handle order, then explosions
/// in ascending spawn order.
pub fn checksum_players_system(state: &GameState, tick: usize) -> (snap: Checksum)
    requires
        digest_pre(state@),
    ensures
        snap.tick == tick,
        snap.digest == spec_digest(state@),
{
    let mut words: Vec<u64> = Vec::new();
    let np = state.players.len();
    let mut i: usize = 0;
    while i < np
        invariant
            np == state.players@.len(),
            i <= np,
            digest_pre(state@),
            words@ == spec_players_words(state@.players.subrange(0, i as int)),
        decreases np - i,
    {
        proof {
            assert(state.players@[i as int]@ == state@.players[i as int]);
        }
        push_player_words(&mut words, &state.players[i]);
        proof {
            assert(state@.players.subrange(0, i + 1).drop_last() =~= state@.players.subrange(
                0,
                i as int,
            ));
            assert(state@.players.subrange(0, i + 1).last() == state@.players[i as int]);
        }
        i = i + 1;
    }
    proof {
        assert(state@.players.subrange(0, np as int) =~= state@.players);
    }
    let ne = state.explosions.len();
    let mut k: usize = 0;
    while k < ne
        invariant
            ne == state.explosions@.len(),
            k <= ne,
            digest_pre(state@),
            words@ == spec_players_words(state@.players) + spec_explosions_words(
                state@.explosions.subrange(0, k as int),
            ),
        decreases ne - k,
    {
        let e = state.explosions[k];
        let wx = coord_word(e.x);
        words.push(wx);
        let wy = coord_word(e.y);
        words.push(wy);
        words.push(e.frame as u64);
        words.push(e.timer_ms_fps);
        proof {
            assert(state@.explosions.subrange(0, k + 1).drop_last() =~= state@.explosions.subrange(
                0,
                k as int,
            ));
            assert(state@.explosions.subrange(0, k + 1).last() == state@.explosions[k as int]);
            assert(words@ =~= spec_players_words(state@.players) + spec_explosions_words(
                state@.explosions.subrange(0, k + 1),
            ));
        }
        k = k + 1;
    }
    proof {
        assert(state@.explosions.subrange(0, ne as int) =~= state@.explosions);
        assert(words@ == spec_state_words(state@));
    }
    let mut h: u64 = FNV_OFFSET;
    let m = words.len();
    let mut t: usize = 0;
    while t < m
        invariant
            m == words@.len(),
            t <= m,
            h == spec_fnv1a(words@.subrange(0, t as int)),
        decreases m - t,
    {
        h = fnv_step(h, words[t]);
        proof {
            assert(words@.subrange(0, t + 1).drop_last() =~= words@.subrange(0, t as int));
            assert(words@.subrange(0, t + 1).last() == words@[t as int]);
        }
        t = t + 1;
    }
    proof {
        assert(words@.subrange(0, m as int) =~= words@);
    }
    Checksum { tick, digest: h }
}

} // verus!
