//! Session lifecycle: the local self-test variant, the networked
//! peer-to-peer variant, and the manager that owns exactly one of them.
//!
//! Both variants share the same advance contract: each tick resolves one
//! input frame per participant, runs the fixed-order pipeline, and records a
//! checksum snapshot. The whole simulated prefix is always the pure fold
//! `spec_state_at` of the initial state over the recorded input history;
//! every rollback argument reduces to that invariant.

use vstd::prelude::*;
use crate::constants::MAX_PLAYERS;
use crate::components::{GameState, StateView};
use crate::input::{InputFrame, InputStatus};
use crate::player::{spawn_players, is_initial_player};
use crate::rollback::{frames_wf, spec_state_at, spec_step_state, spec_step_spawns,
    lemma_state_at_agrees, lemma_run_wf, run_tick_systems};
use crate::checksum::{Checksum, spec_digest, digest_pre, checksum_players_system};
use crate::components::ExplosionToSpawn;

verus! {

/// Errors of session construction and protocol use.
#[derive(Clone, Copy, PartialEq, Eq, Debug)]
pub enum SessionError {
    /// Out-of-range configuration at session build time; recoverable by
    /// rebuilding with valid parameters.
    InvalidConfigurationError,
    /// The peer/transport boundary could not be established at session
    /// start; no session state exists afterwards.
    ConnectionError,
    /// A confirmed input arrived for a tick older than the prediction
    /// window: the transport violated the window contract, and the session
    /// is fatally poisoned and should be torn down.
    RollbackBeyondWindow,
}

/// What a participant handle stands for in a networked session.
#[derive(Clone, PartialEq, Eq, Debug)]
pub enum ParticipantKind {
    Local,
    /// A remote peer; the address is an opaque transport-layer token that
    /// the core never examines.
    Remote { address: String },
}

/// Outcome of the transport layer's attempt to establish the peer set,
/// reported by the driver to `start_online`.
#[derive(Clone, Copy, PartialEq, Eq, Debug)]
pub enum ConnectStatus {
    Established,
    Failed,
}

/// Verdict of comparing a peer's checksum snapshot against the local one.
#[derive(Clone, Copy, PartialEq, Eq, Debug)]
pub enum PeerComparison {
    /// The tick has not been simulated locally yet.
    Unknown,
    /// Local and peer digests agree.
    Matching,
    /// Local and peer digests disagree: a non-fatal diagnostic, the local
    /// simulation continues on its own authoritative state.
    DesyncDetected,
}

/// What one call to `advance` hands back: the tick's checksum snapshot, the
/// resolved input frames (for the transport layer to compare and
/// acknowledge), the explosion-spawn events the tick emitted, and whether
/// the self-test re-simulation detected a divergence.
pub struct FrameResult {
    pub checksum: Checksum,
    pub frames: Vec<InputFrame>,
    pub spawned: Vec<ExplosionToSpawn>,
    pub desync_detected: bool,
}

/// The mathematical value of a recorded input history.
pub open spec fn hist_view(h: Seq<Vec<InputFrame>>) -> Seq<Seq<InputFrame>> {
    Seq::new(h.len(), |i: int| h[i]@)
}

/// The confirmed frames a row of local masks resolves to: handle order,
/// everything confirmed.
pub open spec fn spec_local_frames(row: Seq<u8>) -> Seq<InputFrame> {
    Seq::new(
        row.len(),
        |i: int| InputFrame { handle: i as usize, bits: row[i], status: InputStatus::Confirmed },
    )
}

/// The state a round starts from: `num` participants at the origin with
/// fresh bags, no explosions.
pub open spec fn is_initial_state(v: StateView, num: int) -> bool {
    &&& v.players.len() == num
    &&& forall|i: int| 0 <= i < num ==> is_initial_player(#[trigger] v.players[i], i)
    &&& v.explosions.len() == 0
}

/// The master invariant both session variants maintain: the recorded
/// states are exactly the fold of the pipeline over the recorded history,
/// and every checksum snapshot is the digest of its tick's state.
pub open spec fn chain_wf(
    init: StateView,
    hist: Seq<Seq<InputFrame>>,
    states: Seq<GameState>,
    checksums: Seq<Checksum>,
    fps: u64,
    n: int,
) -> bool {
    &&& states.len() == hist.len()
    &&& checksums.len() == hist.len()
    &&& forall|t: int| 0 <= t < hist.len() ==> frames_wf(#[trigger] hist[t], n)
    &&& forall|t: int| 0 <= t < hist.len() ==> (#[trigger] states[t])@ == spec_state_at(
        init,
        hist,
        fps,
        t + 1,
    )
    &&& forall|t: int| 0 <= t < hist.len() ==> (#[trigger] checksums[t]).tick == t
        && checksums[t].digest == spec_digest(states[t]@)
}

/// Builds one tick's confirmed frames from a row of local masks.
fn local_frames_exec(row: &Vec<u8>) -> (frames: Vec<InputFrame>)
    ensures
        frames@ == spec_local_frames(row@),
{
    let mut frames: Vec<InputFrame> = Vec::new();
    let n = row.len();
    let mut i: usize = 0;
    while i < n
        invariant
            i <= n,
            n == row@.len(),
            frames@ == spec_local_frames(row@).subrange(0, i as int),
        decreases n - i,
    {
        frames.push(InputFrame { handle: i, bits: row[i], status: InputStatus::Confirmed });
        proof {
            assert(frames@ =~= spec_local_frames(row@).subrange(0, i + 1));
        }
        i = i + 1;
    }
    proof {
        assert(spec_local_frames(row@).subrange(0, n as int) =~= spec_local_frames(row@));
    }
    frames
}

/// Copies a row of masks.
fn copy_row(row: &Vec<u8>) -> (c: Vec<u8>)
    ensures
        c@ == row@,
{
    let mut c: Vec<u8> = Vec::new();
    let n = row.len();
    let mut i: usize = 0;
    while i < n
        invariant
            i <= n,
            n == row@.len(),
            c@ == row@.subrange(0, i as int),
        decreases n - i,
    {
        c.push(row[i]);
        proof {
            assert(c@ =~= row@.subrange(0, i + 1));
        }
        i = i + 1;
    }
    proof {
        assert(row@.subrange(0, n as int) =~= row@);
    }
    c
}

/// Copies one tick's frames.
fn copy_frames(frames: &Vec<InputFrame>) -> (c: Vec<InputFrame>)
    ensures
        c@ == frames@,
{
    let mut c: Vec<InputFrame> = Vec::new();
    let n = frames.len();
    let mut i: usize = 0;
    while i < n
        invariant
            i <= n,
            n == frames@.len(),
            c@ == frames@.subrange(0, i as int),
        decreases n - i,
    {
        c.push(frames[i]);
        proof {
            assert(c@ =~= frames@.subrange(0, i + 1));
        }
        i = i + 1;
    }
    proof {
        assert(frames@.subrange(0, n as int) =~= frames@);
    }
    c
}

/// A row of neutral masks, one per participant.
fn neutral_row(num: usize) -> (row: Vec<u8>)
    ensures
        row@ == Seq::new(num as nat, |i: int| 0u8),
{
    let mut row: Vec<u8> = Vec::new();
    let mut i: usize = 0;
    while i < num
        invariant
            i <= num,
            row@ == Seq::new(i as nat, |j: int| 0u8),
        decreases num - i,
    {
        row.push(0);
        proof {
            assert(row@ =~= Seq::new((i + 1) as nat, |j: int| 0u8));
        }
        i = i + 1;
    }
    row
}

/// The local self-test session: every participant is local, every tick is
/// confirmed against itself immediately, and each advance re-simulates the
/// last `check_distance` ticks from their snapshots and compares checksums,
/// which is how a non-deterministic simulation would be caught at run time.
pub struct LocalSession {
    pub num_players: usize,
    /// Ticks a local mask waits before it applies; ticks before that
    /// resolve to the neutral mask.
    pub input_delay: usize,
    /// How many of the most recent ticks each advance re-simulates and
    /// compares.
    pub check_distance: usize,
    pub fps: u64,
    pub init: GameState,
    /// Scheduled masks per tick, one row per future or simulated tick.
    pub scheduled: Vec<Vec<u8>>,
    /// The frames each simulated tick actually consumed.
    pub history: Vec<Vec<InputFrame>>,
    /// Snapshot after each simulated tick; the rollback history buffer.
    pub states: Vec<GameState>,
    /// Checksum snapshot of each simulated tick.
    pub checksums: Vec<Checksum>,
}

impl LocalSession {
    /// The next tick to simulate.
    pub open spec fn current_tick(self) -> int {
        self.history@.len() as int
    }

    pub open spec fn wf(self) -> bool {
        &&& 1 <= self.num_players <= MAX_PLAYERS
        &&& 1 <= self.check_distance
        &&& 1 <= self.fps <= u32::MAX
        &&& is_initial_state(self.init@, self.num_players as int)
        &&& self.init@.wf(self.fps)
        &&& self.scheduled@.len() == self.history@.len() + self.input_delay
        &&& forall|t: int| 0 <= t < self.scheduled@.len() ==> (#[trigger] self.scheduled@[t])@.len()
            == self.num_players
        &&& forall|t: int| 0 <= t < self.history@.len() ==> (#[trigger] self.history@[t])@
            == spec_local_frames(self.scheduled@[t]@)
        &&& chain_wf(
            self.init@,
            hist_view(self.history@),
            self.states@,
            self.checksums@,
            self.fps,
            self.num_players as int,
        )
    }

    /// Starts a local self-test session: all handles local, `input_delay`
    /// ticks of latency on local masks, and `check_distance` ticks of
    /// re-simulation checking per advance. Fails with
    /// `InvalidConfigurationError` exactly when the participant count is
    /// zero or above `MAX_PLAYERS`, the check distance is zero, or the tick
    /// rate is zero.
    pub fn start_local(
        num_participants: usize,
        input_delay: usize,
        check_distance: usize,
        fps: u32,
    ) -> (r: Result<LocalSession, SessionError>)
        ensures
            (r matches Err(e)) <==> (num_participants == 0 || num_participants > MAX_PLAYERS
                || check_distance == 0 || fps == 0),
            r matches Err(e) ==> e == SessionError::InvalidConfigurationError,
            r matches Ok(s) ==> s.wf() && s.num_players == num_participants && s.input_delay
                == input_delay && s.check_distance == check_distance && s.fps == fps
                && s.current_tick() == 0 && is_initial_state(s.init@, num_participants as int),
    {
        if num_participants == 0 || num_participants > MAX_PLAYERS || check_distance == 0 || fps
            == 0 {
            return Err(SessionError::InvalidConfigurationError);
        }
        let players = spawn_players(num_participants);
        let init = GameState { players, explosions: Vec::new() };
        let mut scheduled: Vec<Vec<u8>> = Vec::new();
        let mut t: usize = 0;
        while t < input_delay
            invariant
                t <= input_delay,
                scheduled@.len() == t,
                forall|u: int| 0 <= u < t ==> (#[trigger] scheduled@[u])@ == Seq::new(
                    num_participants as nat,
                    |i: int| 0u8,
                ),
            decreases input_delay - t,
        {
            let row = neutral_row(num_participants);
            scheduled.push(row);
            t = t + 1;
        }
        let s = LocalSession {
            num_players: num_participants,
            input_delay,
            check_distance,
            fps: fps as u64,
            init,
            scheduled,
            history: Vec::new(),
            states: Vec::new(),
            checksums: Vec::new(),
        };
        proof {
            assert(is_initial_state(s.init@, num_participants as int));
            assert(s.init@.wf(s.fps));
        }
        Ok(s)
    }

    /// Advances one tick: schedules the given local masks `input_delay`
    /// ticks ahead, resolves this tick's row into confirmed frames, runs the
    /// fixed-order pipeline, records the checksum snapshot, and re-simulates
    /// the last `check_distance` ticks from their snapshots to compare
    /// checksums. The simulation being a pure function of the history, the
    /// comparison is proved to always agree: `desync_detected` is false.
    pub fn advance(&mut self, local_inputs: &Vec<u8>) -> (result: FrameResult)
        requires
            old(self).wf(),
            local_inputs@.len() == old(self).num_players,
            old(self).history@.len() + old(self).input_delay < usize::MAX,
        ensures
            final(self).wf(),
            final(self).num_players == old(self).num_players,
            final(self).input_delay == old(self).input_delay,
            final(self).check_distance == old(self).check_distance,
            final(self).fps == old(self).fps,
            final(self).init == old(self).init,
            final(self).current_tick() == old(self).current_tick() + 1,
            final(self).scheduled@.len() == old(self).scheduled@.len() + 1,
            forall|t: int| 0 <= t < old(self).scheduled@.len() ==> final(self).scheduled@[t]
                == old(self).scheduled@[t],
            final(self).scheduled@.last()@ == local_inputs@,
            hist_view(final(self).history@) == hist_view(old(self).history@).push(
                spec_local_frames(
                    if old(self).input_delay == 0 {
                        local_inputs@
                    } else {
                        old(self).scheduled@[old(self).current_tick()]@
                    },
                ),
            ),
            result.frames@ == hist_view(final(self).history@).last(),
            result.checksum == final(self).checksums@.last(),
            result.checksum.tick == old(self).current_tick(),
            result.checksum.digest == spec_digest(
                spec_state_at(
                    old(self).init@,
                    hist_view(final(self).history@),
                    old(self).fps,
                    old(self).current_tick() + 1,
                ),
            ),
            result.spawned@ == spec_step_spawns(
                spec_state_at(
                    old(self).init@,
                    hist_view(final(self).history@),
                    old(self).fps,
                    old(self).current_tick(),
                ),
                hist_view(final(self).history@).last(),
            ),
            result.desync_detected == false,
    {
        let cur = self.history.len();
        let masks = copy_row(local_inputs);
        self.scheduled.push(masks);
        let frames = local_frames_exec(&self.scheduled[cur]);
        let ghost oh = hist_view(old(self).history@);
        proof {
            assert(frames_wf(frames@, self.num_players as int));
            lemma_run_wf(self.init@, oh, self.fps, cur as int);
        }
        let mut st = if cur == 0 {
            self.init.clone_state()
        } else {
            self.states[cur - 1].clone_state()
        };
        proof {
            assert(st@ == spec_state_at(self.init@, oh, self.fps, cur as int));
        }
        let spawned = run_tick_systems(&mut st, &frames, self.fps);
        proof {
            assert(digest_pre(st@));
        }
        let snap = checksum_players_system(&st, cur);
        let frames_out = copy_frames(&frames);
        let ghost st0 = spec_state_at(self.init@, oh, self.fps, cur as int);
        self.history.push(frames);
        self.states.push(st);
        self.checksums.push(snap);
        let ghost nh = hist_view(self.history@);
        proof {
            assert(nh =~= oh.push(spec_local_frames(self.scheduled@[cur as int]@)));
            assert forall|t: int| 0 <= t < cur + 1 implies (#[trigger] self.states@[t])@
                == spec_state_at(self.init@, nh, self.fps, t + 1) by {
                lemma_state_at_agrees(self.init@, oh, nh, self.fps, t);
                if t < cur {
                    lemma_state_at_agrees(self.init@, oh, nh, self.fps, t + 1);
                } else {
                    assert(spec_state_at(self.init@, nh, self.fps, cur as int + 1)
                        == spec_step_state(
                        spec_state_at(self.init@, nh, self.fps, cur as int),
                        nh[cur as int],
                        self.fps,
                    ));
                }
            }
            assert(self.wf());
            lemma_state_at_agrees(self.init@, oh, nh, self.fps, cur as int);
            assert(spec_state_at(self.init@, nh, self.fps, cur as int) == st0);
            assert(self.states@[cur as int]@ == spec_state_at(
                self.init@,
                nh,
                self.fps,
                cur as int + 1,
            ));
            assert(snap.digest == spec_digest(
                spec_state_at(self.init@, nh, self.fps, cur as int + 1),
            ));
            assert(spawned@ == spec_step_spawns(st0, nh[cur as int]));
        }
        let desync = self.recheck();
        FrameResult { checksum: snap, frames: frames_out, spawned, desync_detected: desync }
    }

    /// Re-simulates the last `check_distance` simulated ticks, each from its
    /// stored snapshot, and compares the recomputed checksums against the
    /// recorded ones. The recorded states being exactly the fold of the
    /// pipeline, the comparison is proved to always agree.
    fn recheck(&self) -> (desync: bool)
        requires
            self.wf(),
        ensures
            desync == false,
    {
        let total = self.history.len();
        let from = if self.check_distance >= total {
            0
        } else {
            total - self.check_distance
        };
        let mut desync = false;
        let ghost nh = hist_view(self.history@);
        let mut t: usize = from;
        while t < total
            invariant
                self.wf(),
                from <= t,
                total == self.history@.len(),
                desync == false,
                nh == hist_view(self.history@),
            decreases total - t,
        {
            proof {
                lemma_run_wf(self.init@, nh, self.fps, t as int);
            }
            let mut base = if t == 0 {
                self.init.clone_state()
            } else {
                self.states[t - 1].clone_state()
            };
            proof {
                assert(base@ == spec_state_at(self.init@, nh, self.fps, t as int));
            }
            let _spawns = run_tick_systems(&mut base, &self.history[t], self.fps);
            proof {
                assert(base@ == self.states@[t as int]@);
                assert(digest_pre(base@));
            }
            let c = checksum_players_system(&base, t);
            if c.digest != self.checksums[t].digest {
                desync = true;
                proof {
                    assert(false);
                }
            }
            t = t + 1;
        }
        desync
    }
}

/// What the scheduler knows of confirmed inputs: by tick, then by handle.
/// Ticks beyond the recorded rows are simply unknown.
pub open spec fn conf_view(c: Seq<Vec<Option<u8>>>) -> Seq<Seq<Option<u8>>> {
    Seq::new(c.len(), |i: int| c[i]@)
}

/// The confirmed mask known for a tick and handle, if any.
pub open spec fn conf_at(conf: Seq<Seq<Option<u8>>>, t: int, h: int) -> Option<u8> {
    if 0 <= t < conf.len() && 0 <= h < conf[t].len() {
        conf[t][h]
    } else {
        None
    }
}

/// The prediction rule: repeat the most recent confirmed mask before the
/// tick, neutral if none is known yet.
pub open spec fn last_confirmed_before(conf: Seq<Seq<Option<u8>>>, h: int, t: int) -> u8
    decreases t,
{
    if t <= 0 {
        0u8
    } else {
        match conf_at(conf, t - 1, h) {
            Some(b) => b,
            None => last_confirmed_before(conf, h, t - 1),
        }
    }
}

/// Whether a handle counts as disconnected at a tick.
pub open spec fn disc_at(disc: Seq<Option<usize>>, h: int, t: int) -> bool {
    &&& 0 <= h < disc.len()
    &&& match disc[h] {
        Some(d) => d <= t,
        None => false,
    }
}

/// The frame a tick resolves for a handle: disconnected participants are
/// neutral, known confirmed masks pass through confirmed, anything else is
/// predicted by repeating the last confirmed mask.
pub open spec fn spec_resolve_frame(
    conf: Seq<Seq<Option<u8>>>,
    disc: Seq<Option<usize>>,
    t: int,
    h: int,
) -> InputFrame {
    if disc_at(disc, h, t) {
        InputFrame { handle: h as usize, bits: 0, status: InputStatus::Disconnected }
    } else {
        match conf_at(conf, t, h) {
            Some(b) => InputFrame { handle: h as usize, bits: b, status: InputStatus::Confirmed },
            None => InputFrame {
                handle: h as usize,
                bits: last_confirmed_before(conf, h, t),
                status: InputStatus::Predicted,
            },
        }
    }
}

/// One frame per participant, resolved for one tick.
pub open spec fn spec_resolve_tick(
    conf: Seq<Seq<Option<u8>>>,
    disc: Seq<Option<usize>>,
    n: nat,
    t: int,
) -> Seq<InputFrame> {
    Seq::new(n as nat, |h: int| spec_resolve_frame(conf, disc, t, h))
}

/// The prediction for a tick reads only confirmations of earlier ticks.
proof fn lemma_last_confirmed_agrees(
    c1: Seq<Seq<Option<u8>>>,
    c2: Seq<Seq<Option<u8>>>,
    h: int,
    t: int,
)
    requires
        forall|u: int| 0 <= u < t ==> conf_at(c1, u, h) == conf_at(c2, u, h),
    ensures
        last_confirmed_before(c1, h, t) == last_confirmed_before(c2, h, t),
    decreases t,
{
    if t > 0 {
        lemma_last_confirmed_agrees(c1, c2, h, t - 1);
    }
}

/// A tick's resolution reads only confirmations up to that tick and the
/// disconnect state at that tick: knowledge added for later ticks never
/// rewrites an already-simulated frame.
proof fn lemma_resolve_tick_agrees(
    c1: Seq<Seq<Option<u8>>>,
    c2: Seq<Seq<Option<u8>>>,
    d1: Seq<Option<usize>>,
    d2: Seq<Option<usize>>,
    n: nat,
    t: int,
)
    requires
        forall|u: int, h: int| 0 <= u <= t && 0 <= h < n ==> conf_at(c1, u, h) == conf_at(
            c2,
            u,
            h,
        ),
        forall|h: int| 0 <= h < n ==> disc_at(d1, h, t) == disc_at(d2, h, t),
    ensures
        spec_resolve_tick(c1, d1, n, t) == spec_resolve_tick(c2, d2, n, t),
{
    assert forall|h: int| 0 <= h < n implies spec_resolve_frame(c1, d1, t, h)
        == spec_resolve_frame(c2, d2, t, h) by {
        lemma_last_confirmed_agrees(c1, c2, h, t);
        assert(conf_at(c1, t, h) == conf_at(c2, t, h));
    }
    assert(spec_resolve_tick(c1, d1, n, t) =~= spec_resolve_tick(c2, d2, n, t));
}

pub open spec fn is_local(k: ParticipantKind) -> bool {
    match k {
        ParticipantKind::Local => true,
        ParticipantKind::Remote { .. } => false,
    }
}

/// The networked peer-to-peer session. Remote confirmed inputs arrive
/// through `push_remote_input`; ticks run ahead on predictions, and a late
/// confirmation that contradicts what was simulated rolls the session back
/// to that tick's snapshot and re-simulates forward, bounded by
/// `max_prediction_window`.
pub struct OnlineSession {
    pub num_players: usize,
    /// What each handle stands for; index is the handle.
    pub kinds: Vec<ParticipantKind>,
    /// Ticks a local mask waits before it applies.
    pub input_delay: usize,
    /// Bound on rollback depth: a correction older than this is fatal.
    pub max_prediction_window: usize,
    pub fps: u64,
    pub init: GameState,
    /// Confirmed-input knowledge: one row per tick, one entry per handle.
    pub confirmed: Vec<Vec<Option<u8>>>,
    /// The tick from which each handle counts as disconnected, if any.
    pub disconnected_since: Vec<Option<usize>>,
    /// The frames each simulated tick actually consumed.
    pub history: Vec<Vec<InputFrame>>,
    /// Snapshot after each simulated tick; the rollback history buffer.
    pub states: Vec<GameState>,
    /// Checksum snapshot of each simulated tick.
    pub checksums: Vec<Checksum>,
    /// Set when the window contract was violated; the session is then dead
    /// and must be torn down.
    pub poisoned: bool,
}

impl OnlineSession {
    /// The next tick to simulate.
    pub open spec fn current_tick(self) -> int {
        self.history@.len() as int
    }

    /// What the scheduler knows of confirmed inputs.
    pub open spec fn knowledge(self) -> Seq<Seq<Option<u8>>> {
        conf_view(self.confirmed@)
    }

    pub open spec fn wf(self) -> bool {
        &&& 1 <= self.num_players <= MAX_PLAYERS
        &&& 1 <= self.max_prediction_window
        &&& 1 <= self.fps <= u32::MAX
        &&& self.kinds@.len() == self.num_players
        &&& self.disconnected_since@.len() == self.num_players
        &&& is_initial_state(self.init@, self.num_players as int)
        &&& self.init@.wf(self.fps)
        &&& forall|t: int| 0 <= t < self.confirmed@.len() ==> (#[trigger] self.confirmed@[t])@.len()
            == self.num_players
        &&& forall|t: int| 0 <= t < self.history@.len() ==> (#[trigger] self.history@[t])@
            == spec_resolve_tick(
            self.knowledge(),
            self.disconnected_since@,
            self.num_players as nat,
            t,
        )
        &&& chain_wf(
            self.init@,
            hist_view(self.history@),
            self.states@,
            self.checksums@,
            self.fps,
            self.num_players as int,
        )
    }

    /// Starts a networked session over an already-attempted transport
    /// establishment. Configuration is validated first
    /// (`InvalidConfigurationError` exactly when the participant count is
    /// zero or above `MAX_PLAYERS`, the roster length does not match it,
    /// the prediction window is zero, or the tick rate is zero); then a
    /// failed transport gives `ConnectionError` and no session state
    /// exists.
    pub fn start_online(
        num_participants: usize,
        roster: Vec<ParticipantKind>,
        input_delay: usize,
        max_prediction_window: usize,
        fps: u32,
        transport: ConnectStatus,
    ) -> (r: Result<OnlineSession, SessionError>)
        ensures
            (num_participants == 0 || num_participants > MAX_PLAYERS || roster@.len()
                != num_participants || max_prediction_window == 0 || fps == 0) ==> r == Result::<
                OnlineSession,
                SessionError,
            >::Err(SessionError::InvalidConfigurationError),
            !(num_participants == 0 || num_participants > MAX_PLAYERS || roster@.len()
                != num_participants || max_prediction_window == 0 || fps == 0) && (
            transport matches ConnectStatus::Failed) ==> r == Result::<
                OnlineSession,
                SessionError,
            >::Err(SessionError::ConnectionError),
            !(num_participants == 0 || num_participants > MAX_PLAYERS || roster@.len()
                != num_participants || max_prediction_window == 0 || fps == 0) && (
            transport matches ConnectStatus::Established) ==> (r matches Ok(s) && s.wf()
                && s.num_players == num_participants && s.kinds@ == roster@ && s.input_delay
                == input_delay && s.max_prediction_window == max_prediction_window && s.fps == fps
                && s.current_tick() == 0 && !s.poisoned && is_initial_state(
                s.init@,
                num_participants as int,
            )),
    {
        if num_participants == 0 || num_participants > MAX_PLAYERS || roster.len()
            != num_participants || max_prediction_window == 0 || fps == 0 {
            return Err(SessionError::InvalidConfigurationError);
        }
        if let ConnectStatus::Failed = transport {
            return Err(SessionError::ConnectionError);
        }
        let players = spawn_players(num_participants);
        let init = GameState { players, explosions: Vec::new() };
        let mut confirmed: Vec<Vec<Option<u8>>> = Vec::new();
        let mut t: usize = 0;
        while t < input_delay
            invariant
                t <= input_delay,
                confirmed@.len() == t,
                roster@.len() == num_participants,
                forall|u: int| 0 <= u < t ==> (#[trigger] confirmed@[u])@ == prefill_row_spec(
                    roster@,
                ),
            decreases input_delay - t,
        {
            let row = prefill_row(&roster);
            confirmed.push(row);
            t = t + 1;
        }
        let mut disconnected_since: Vec<Option<usize>> = Vec::new();
        let mut h: usize = 0;
        while h < num_participants
            invariant
                h <= num_participants,
                disconnected_since@.len() == h,
                forall|u: int| 0 <= u < h ==> disconnected_since@[u] is None,
            decreases num_participants - h,
        {
            disconnected_since.push(None);
            h = h + 1;
        }
        let s = OnlineSession {
            num_players: num_participants,
            kinds: roster,
            input_delay,
            max_prediction_window,
            fps: fps as u64,
            init,
            confirmed,
            disconnected_since,
            history: Vec::new(),
            states: Vec::new(),
            checksums: Vec::new(),
            poisoned: false,
        };
        proof {
            assert forall|u: int| 0 <= u < s.confirmed@.len() implies (
            #[trigger] s.confirmed@[u])@.len() == s.num_players by {
                assert(s.confirmed@[u]@ == prefill_row_spec(s.kinds@));
            }
            assert(s.wf());
        }
        Ok(s)
    }
}

impl OnlineSession {
    /// Resolves the frame of one handle for one tick from the current
    /// knowledge.
    #[verifier::loop_isolation(false)]
    fn resolve_frame_exec(&self, t: usize, h: usize) -> (frame: InputFrame)
        requires
            h < self.num_players,
            self.disconnected_since@.len() == self.num_players,
            forall|u: int| 0 <= u < self.confirmed@.len() ==> (#[trigger] self.confirmed@[u])@.len()
                == self.num_players,
        ensures
            frame == spec_resolve_frame(
                self.knowledge(),
                self.disconnected_since@,
                t as int,
                h as int,
            ),
    {
        let disc = match self.disconnected_since[h] {
            Some(d) => d <= t,
            None => false,
        };
        if disc {
            return InputFrame { handle: h, bits: 0, status: InputStatus::Disconnected };
        }
        if t < self.confirmed.len() {
            let row = &self.confirmed[t];
            if let Some(b) = row[h] {
                proof {
                    assert(conf_at(self.knowledge(), t as int, h as int) == Some(b));
                }
                return InputFrame { handle: h, bits: b, status: InputStatus::Confirmed };
            }
        }
        proof {
            assert(conf_at(self.knowledge(), t as int, h as int) is None);
        }
        let mut u = t;
        while u > 0
            invariant
                u <= t,
                last_confirmed_before(self.knowledge(), h as int, t as int)
                    == last_confirmed_before(self.knowledge(), h as int, u as int),
            decreases u,
        {
            let mut found: Option<u8> = None;
            if u - 1 < self.confirmed.len() {
                let row = &self.confirmed[u - 1];
                found = row[h];
            }
            match found {
                Some(b) => {
                    proof {
                        assert(conf_at(self.knowledge(), u - 1, h as int) == Some(b));
                    }
                    return InputFrame { handle: h, bits: b, status: InputStatus::Predicted };
                },
                None => {
                    proof {
                        assert(conf_at(self.knowledge(), u - 1, h as int) is None);
                    }
                },
            }
            u = u - 1;
        }
        InputFrame { handle: h, bits: 0, status: InputStatus::Predicted }
    }

    /// Resolves one frame per participant for one tick.
    #[verifier::loop_isolation(false)]
    fn resolve_tick_exec(&self, t: usize) -> (frames: Vec<InputFrame>)
        requires
            self.disconnected_since@.len() == self.num_players,
            forall|u: int| 0 <= u < self.confirmed@.len() ==> (#[trigger] self.confirmed@[u])@.len()
                == self.num_players,
        ensures
            frames@ == spec_resolve_tick(
                self.knowledge(),
                self.disconnected_since@,
                self.num_players as nat,
                t as int,
            ),
    {
        let ghost target = spec_resolve_tick(
            self.knowledge(),
            self.disconnected_since@,
            self.num_players as nat,
            t as int,
        );
        let mut frames: Vec<InputFrame> = Vec::new();
        let n = self.num_players;
        let mut h: usize = 0;
        while h < n
            invariant
                h <= n,
                frames@ == target.subrange(0, h as int),
            decreases n - h,
        {
            let f = self.resolve_frame_exec(t, h);
            frames.push(f);
            proof {
                assert(frames@ =~= target.subrange(0, h + 1));
            }
            h = h + 1;
        }
        proof {
            assert(target.subrange(0, n as int) =~= target);
        }
        frames
    }

    /// Simulates the next tick from the current knowledge: resolves one
    /// frame per participant, runs the fixed-order pipeline on the latest
    /// snapshot, and records state, history and checksum snapshot.
    fn run_tick_once(&mut self) -> (out: (Vec<InputFrame>, Vec<ExplosionToSpawn>, Checksum))
        requires
            old(self).wf(),
            old(self).history@.len() < usize::MAX,
        ensures
            final(self).wf(),
            final(self).num_players == old(self).num_players,
            final(self).kinds == old(self).kinds,
            final(self).input_delay == old(self).input_delay,
            final(self).max_prediction_window == old(self).max_prediction_window,
            final(self).fps == old(self).fps,
            final(self).init == old(self).init,
            final(self).confirmed == old(self).confirmed,
            final(self).disconnected_since == old(self).disconnected_since,
            final(self).poisoned == old(self).poisoned,
            final(self).current_tick() == old(self).current_tick() + 1,
            out.0@ == spec_resolve_tick(
                old(self).knowledge(),
                old(self).disconnected_since@,
                old(self).num_players as nat,
                old(self).current_tick(),
            ),
            hist_view(final(self).history@) == hist_view(old(self).history@).push(out.0@),
            out.2 == final(self).checksums@.last(),
            out.2.tick == old(self).current_tick(),
            out.2.digest == spec_digest(
                spec_state_at(
                    old(self).init@,
                    hist_view(final(self).history@),
                    old(self).fps,
                    old(self).current_tick() + 1,
                ),
            ),
            out.1@ == spec_step_spawns(
                spec_state_at(
                    old(self).init@,
                    hist_view(final(self).history@),
                    old(self).fps,
                    old(self).current_tick(),
                ),
                out.0@,
            ),
    {
        let cur = self.history.len();
        let frames = self.resolve_tick_exec(cur);
        let ghost oh = hist_view(old(self).history@);
        proof {
            assert(frames_wf(frames@, self.num_players as int));
            lemma_run_wf(self.init@, oh, self.fps, cur as int);
        }
        let mut st = if cur == 0 {
            self.init.clone_state()
        } else {
            self.states[cur - 1].clone_state()
        };
        proof {
            assert(st@ == spec_state_at(self.init@, oh, self.fps, cur as int));
        }
        let spawned = run_tick_systems(&mut st, &frames, self.fps);
        proof {
            assert(digest_pre(st@));
        }
        let snap = checksum_players_system(&st, cur);
        let frames_out = copy_frames(&frames);
        let ghost st0 = spec_state_at(self.init@, oh, self.fps, cur as int);
        self.history.push(frames);
        self.states.push(st);
        self.checksums.push(snap);
        let ghost nh = hist_view(self.history@);
        proof {
            assert(nh =~= oh.push(frames_out@));
            assert forall|t: int| 0 <= t < cur + 1 implies (#[trigger] self.states@[t])@
                == spec_state_at(self.init@, nh, self.fps, t + 1) by {
                lemma_state_at_agrees(self.init@, oh, nh, self.fps, t);
                if t < cur {
                    lemma_state_at_agrees(self.init@, oh, nh, self.fps, t + 1);
                } else {
                    assert(spec_state_at(self.init@, nh, self.fps, cur as int + 1)
                        == spec_step_state(
                        spec_state_at(self.init@, nh, self.fps, cur as int),
                        nh[cur as int],
                        self.fps,
                    ));
                }
            }
            assert(self.wf());
            lemma_state_at_agrees(self.init@, oh, nh, self.fps, cur as int);
            assert(spec_state_at(self.init@, nh, self.fps, cur as int) == st0);
            assert(snap.digest == spec_digest(
                spec_state_at(self.init@, nh, self.fps, cur as int + 1),
            ));
            assert(spawned@ == spec_step_spawns(st0, nh[cur as int]));
        }
        (frames_out, spawned, snap)
    }
}

impl OnlineSession {
    /// Advances one tick: schedules the local masks `input_delay` ticks
    /// ahead as confirmed knowledge (entries of remote handles are
    /// ignored), resolves this tick's frames — confirmed where known,
    /// predicted by repetition otherwise, neutral for disconnected
    /// handles — runs the pipeline and records the checksum snapshot.
    #[verifier::loop_isolation(false)]
    pub fn advance(&mut self, local_inputs: &Vec<u8>) -> (result: FrameResult)
        requires
            old(self).wf(),
            !old(self).poisoned,
            local_inputs@.len() == old(self).num_players,
            old(self).current_tick() + old(self).input_delay < usize::MAX,
        ensures
            final(self).wf(),
            !final(self).poisoned,
            final(self).num_players == old(self).num_players,
            final(self).kinds == old(self).kinds,
            final(self).input_delay == old(self).input_delay,
            final(self).max_prediction_window == old(self).max_prediction_window,
            final(self).fps == old(self).fps,
            final(self).init == old(self).init,
            final(self).disconnected_since == old(self).disconnected_since,
            final(self).current_tick() == old(self).current_tick() + 1,
            forall|t: int, h: int|
                conf_at(final(self).knowledge(), t, h) == (
                if t == old(self).current_tick() + old(self).input_delay && 0 <= h < old(
                    self,
                ).num_players && is_local(old(self).kinds@[h]) {
                    Some(local_inputs@[h])
                } else {
                    conf_at(old(self).knowledge(), t, h)
                }),
            result.frames@ == spec_resolve_tick(
                final(self).knowledge(),
                old(self).disconnected_since@,
                old(self).num_players as nat,
                old(self).current_tick(),
            ),
            hist_view(final(self).history@) == hist_view(old(self).history@).push(
                result.frames@,
            ),
            result.checksum == final(self).checksums@.last(),
            result.checksum.tick == old(self).current_tick(),
            result.checksum.digest == spec_digest(
                spec_state_at(
                    old(self).init@,
                    hist_view(final(self).history@),
                    old(self).fps,
                    old(self).current_tick() + 1,
                ),
            ),
            result.spawned@ == spec_step_spawns(
                spec_state_at(
                    old(self).init@,
                    hist_view(final(self).history@),
                    old(self).fps,
                    old(self).current_tick(),
                ),
                result.frames@,
            ),
            result.desync_detected == false,
    {
        let cur = self.history.len();
        let target = cur + self.input_delay;
        let ghost k0 = self.knowledge();
        while self.confirmed.len() <= target
            invariant
                self.num_players == old(self).num_players,
                self.kinds == old(self).kinds,
                self.input_delay == old(self).input_delay,
                self.max_prediction_window == old(self).max_prediction_window,
                self.fps == old(self).fps,
                self.init == old(self).init,
                self.disconnected_since == old(self).disconnected_since,
                self.history == old(self).history,
                self.states == old(self).states,
                self.checksums == old(self).checksums,
                self.poisoned == old(self).poisoned,
                forall|u: int| 0 <= u < self.confirmed@.len() ==> (
                #[trigger] self.confirmed@[u])@.len() == self.num_players,
                forall|t: int, h: int| conf_at(self.knowledge(), t, h) == conf_at(k0, t, h),
            decreases target + 1 - self.confirmed@.len(),
        {
            let row = none_row(self.num_players);
            let ghost kp = self.knowledge();
            self.confirmed.push(row);
            proof {
                assert forall|t: int, h: int| conf_at(self.knowledge(), t, h) == conf_at(
                    kp,
                    t,
                    h,
                ) by {
                    if 0 <= t < self.knowledge().len() && 0 <= h
                        < self.knowledge()[t].len() {
                        if t < kp.len() {
                            assert(self.knowledge()[t] == kp[t]);
                        } else {
                            assert(self.knowledge()[t][h] is None);
                        }
                    }
                }
            }
        }
        let mut h: usize = 0;
        while h < self.num_players
            invariant
                h <= self.num_players,
                self.num_players == old(self).num_players,
                self.kinds == old(self).kinds,
                self.input_delay == old(self).input_delay,
                self.max_prediction_window == old(self).max_prediction_window,
                self.fps == old(self).fps,
                self.init == old(self).init,
                self.disconnected_since == old(self).disconnected_since,
                self.history == old(self).history,
                self.states == old(self).states,
                self.checksums == old(self).checksums,
                self.poisoned == old(self).poisoned,
                self.confirmed@.len() > target,
                forall|u: int| 0 <= u < self.confirmed@.len() ==> (
                #[trigger] self.confirmed@[u])@.len() == self.num_players,
                forall|t: int, hh: int|
                    conf_at(self.knowledge(), t, hh) == (
                    if t == target && 0 <= hh < h && is_local(old(self).kinds@[hh]) {
                        Some(local_inputs@[hh])
                    } else {
                        conf_at(k0, t, hh)
                    }),
            decreases self.num_players - h,
        {
            let loc = match &self.kinds[h] {
                ParticipantKind::Local => true,
                ParticipantKind::Remote { .. } => false,
            };
            if loc {
                let ghost kp = self.knowledge();
                let row = &mut self.confirmed[target];
                let b = local_inputs[h];
                row[h] = Some(b);
                proof {
                    assert forall|t: int, hh: int|
                        conf_at(self.knowledge(), t, hh) == (
                        if t == target && hh == h {
                            Some(b)
                        } else {
                            conf_at(kp, t, hh)
                        }) by {
                        if t == target as int {
                            assert(self.knowledge()[t] == kp[t].update(h as int, Some(b)));
                        } else if 0 <= t < kp.len() {
                            assert(self.knowledge()[t] == kp[t]);
                        }
                    }
                }
            }
            h = h + 1;
        }
        proof {
            assert forall|t: int| 0 <= t < self.history@.len() implies (
            #[trigger] self.history@[t])@ == spec_resolve_tick(
                self.knowledge(),
                self.disconnected_since@,
                self.num_players as nat,
                t,
            ) by {
                assert forall|u: int, hh: int|
                    0 <= u <= t && 0 <= hh < self.num_players implies conf_at(
                    self.knowledge(),
                    u,
                    hh,
                ) == conf_at(k0, u, hh) by {
                    assert(u <= t < cur <= target);
                }
                lemma_resolve_tick_agrees(
                    self.knowledge(),
                    k0,
                    self.disconnected_since@,
                    self.disconnected_since@,
                    self.num_players as nat,
                    t,
                );
            }
            assert(self.wf());
        }
        let (frames, spawned, snap) = self.run_tick_once();
        FrameResult { checksum: snap, frames, spawned, desync_detected: false }
    }
}

impl OnlineSession {
    /// Takes a remote peer's confirmed mask for a tick. Knowledge for the
    /// current tick or later is simply recorded. Knowledge for an
    /// already-simulated tick is a correction: the session rolls back to
    /// that tick's snapshot and re-simulates forward with the corrected
    /// knowledge — so afterwards the whole recorded history is again
    /// exactly what the updated knowledge resolves to, as if the input had
    /// been known all along. A correction deeper than
    /// `max_prediction_window` is a protocol violation: the session is
    /// poisoned, nothing is re-simulated, and the caller must tear it
    /// down.
    #[verifier::loop_isolation(false)]
    pub fn push_remote_input(&mut self, handle: usize, tick: usize, mask: u8) -> (r: Result<
        (),
        SessionError,
    >)
        requires
            old(self).wf(),
            !old(self).poisoned,
            handle < old(self).num_players,
            !is_local(old(self).kinds@[handle as int]),
            match conf_at(old(self).knowledge(), tick as int, handle as int) {
                Some(b) => b == mask,
                None => true,
            },
        ensures
            final(self).num_players == old(self).num_players,
            final(self).kinds == old(self).kinds,
            final(self).input_delay == old(self).input_delay,
            final(self).max_prediction_window == old(self).max_prediction_window,
            final(self).fps == old(self).fps,
            final(self).init == old(self).init,
            final(self).disconnected_since == old(self).disconnected_since,
            (r matches Err(e)) <==> (conf_at(old(self).knowledge(), tick as int, handle as int)
                is None && tick < old(self).current_tick() && old(self).current_tick() - tick
                > old(self).max_prediction_window),
            r matches Err(e) ==> e == SessionError::RollbackBeyondWindow && final(self).poisoned
                && final(self).history == old(self).history
                && final(self).states == old(self).states
                && final(self).checksums == old(self).checksums && final(self).confirmed
                == old(self).confirmed,
            r matches Ok(u) ==> final(self).wf() && !final(self).poisoned
                && final(self).current_tick() == old(self).current_tick()
                && forall|t: int, h: int|
                conf_at(final(self).knowledge(), t, h) == (
                if t == tick && h == handle {
                    Some(mask)
                } else {
                    conf_at(old(self).knowledge(), t, h)
                }),
    {
        let cur = self.history.len();
        let mut known = false;
        if tick < self.confirmed.len() {
            let row = &self.confirmed[tick];
            if row[handle].is_some() {
                known = true;
            }
        }
        if known {
            proof {
                assert(conf_at(self.knowledge(), tick as int, handle as int) == Some(mask));
            }
            return Ok(());
        }
        proof {
            assert(conf_at(self.knowledge(), tick as int, handle as int) is None);
        }
        if tick < cur && cur - tick > self.max_prediction_window {
            self.poisoned = true;
            return Err(SessionError::RollbackBeyondWindow);
        }
        let ghost k0 = self.knowledge();
        while self.confirmed.len() <= tick
            invariant
                self.num_players == old(self).num_players,
                self.kinds == old(self).kinds,
                self.input_delay == old(self).input_delay,
                self.max_prediction_window == old(self).max_prediction_window,
                self.fps == old(self).fps,
                self.init == old(self).init,
                self.disconnected_since == old(self).disconnected_since,
                self.history == old(self).history,
                self.states == old(self).states,
                self.checksums == old(self).checksums,
                self.poisoned == old(self).poisoned,
                forall|u: int| 0 <= u < self.confirmed@.len() ==> (
                #[trigger] self.confirmed@[u])@.len() == self.num_players,
                forall|t: int, h: int| conf_at(self.knowledge(), t, h) == conf_at(k0, t, h),
            decreases tick + 1 - self.confirmed@.len(),
        {
            let row = none_row(self.num_players);
            let ghost kp = self.knowledge();
            self.confirmed.push(row);
            proof {
                assert forall|t: int, h: int| conf_at(self.knowledge(), t, h) == conf_at(
                    kp,
                    t,
                    h,
                ) by {
                    if 0 <= t < self.knowledge().len() && 0 <= h
                        < self.knowledge()[t].len() {
                        if t < kp.len() {
                            assert(self.knowledge()[t] == kp[t]);
                        } else {
                            assert(self.knowledge()[t][h] is None);
                        }
                    }
                }
            }
        }
        let ghost kp = self.knowledge();
        let row = &mut self.confirmed[tick];
        row[handle] = Some(mask);
        proof {
            assert forall|t: int, h: int|
                conf_at(self.knowledge(), t, h) == (
                if t == tick && h == handle {
                    Some(mask)
                } else {
                    conf_at(kp, t, h)
                }) by {
                if t == tick as int {
                    assert(self.knowledge()[t] == kp[t].update(handle as int, Some(mask)));
                } else if 0 <= t < kp.len() {
                    assert(self.knowledge()[t] == kp[t]);
                }
            }
        }
        if tick >= cur {
            proof {
                assert forall|t: int| 0 <= t < self.history@.len() implies (
                #[trigger] self.history@[t])@ == spec_resolve_tick(
                    self.knowledge(),
                    self.disconnected_since@,
                    self.num_players as nat,
                    t,
                ) by {
                    lemma_resolve_tick_agrees(
                        self.knowledge(),
                        k0,
                        self.disconnected_since@,
                        self.disconnected_since@,
                        self.num_players as nat,
                        t,
                    );
                }
                assert(self.wf());
            }
            return Ok(());
        }
        let ghost old_nh = hist_view(self.history@);
        self.history.truncate(tick);
        self.states.truncate(tick);
        self.checksums.truncate(tick);
        proof {
            let nh = hist_view(self.history@);
            assert forall|t: int| 0 <= t < tick implies nh[t] == old_nh[t] by {
                assert(self.history@[t] == old(self).history@[t]);
            }
            assert forall|t: int| 0 <= t < tick implies (#[trigger] self.states@[t])@
                == spec_state_at(self.init@, nh, self.fps, t + 1) by {
                lemma_state_at_agrees(self.init@, old_nh, nh, self.fps, t + 1);
            }
            assert forall|t: int| 0 <= t < tick implies (#[trigger] self.history@[t])@
                == spec_resolve_tick(
                self.knowledge(),
                self.disconnected_since@,
                self.num_players as nat,
                t,
            ) by {
                assert(self.history@[t] == old(self).history@[t]);
                lemma_resolve_tick_agrees(
                    self.knowledge(),
                    k0,
                    self.disconnected_since@,
                    self.disconnected_since@,
                    self.num_players as nat,
                    t,
                );
            }
            assert(self.wf());
        }
        let ghost conf_fixed = self.confirmed;
        while self.history.len() < cur
            invariant
                self.wf(),
                self.num_players == old(self).num_players,
                self.kinds == old(self).kinds,
                self.input_delay == old(self).input_delay,
                self.max_prediction_window == old(self).max_prediction_window,
                self.fps == old(self).fps,
                self.init == old(self).init,
                self.disconnected_since == old(self).disconnected_since,
                self.confirmed == conf_fixed,
                self.poisoned == old(self).poisoned,
                self.history@.len() <= cur,
            decreases cur - self.history@.len(),
        {
            let _out = self.run_tick_once();
        }
        Ok(())
    }

    /// Marks a participant disconnected from the current tick on: every
    /// tick from here resolves that handle to the neutral mask. Not an
    /// error, and idempotent; already-simulated ticks are untouched.
    pub fn disconnect(&mut self, handle: usize)
        requires
            old(self).wf(),
            handle < old(self).num_players,
        ensures
            final(self).wf(),
            final(self).num_players == old(self).num_players,
            final(self).kinds == old(self).kinds,
            final(self).input_delay == old(self).input_delay,
            final(self).max_prediction_window == old(self).max_prediction_window,
            final(self).fps == old(self).fps,
            final(self).init == old(self).init,
            final(self).confirmed == old(self).confirmed,
            final(self).history == old(self).history,
            final(self).states == old(self).states,
            final(self).checksums == old(self).checksums,
            final(self).poisoned == old(self).poisoned,
            final(self).disconnected_since@ == (
            if old(self).disconnected_since@[handle as int] is None {
                old(self).disconnected_since@.update(
                    handle as int,
                    Some((old(self).history@.len() as usize)),
                )
            } else {
                old(self).disconnected_since@
            }),
    {
        let already = self.disconnected_since[handle].is_some();
        if !already {
            let cur = self.history.len();
            self.disconnected_since[handle] = Some(cur);
            proof {
                let d0 = old(self).disconnected_since@;
                let d1 = self.disconnected_since@;
                assert forall|t: int| 0 <= t < self.history@.len() implies (
                #[trigger] self.history@[t])@ == spec_resolve_tick(
                    self.knowledge(),
                    d1,
                    self.num_players as nat,
                    t,
                ) by {
                    assert forall|hh: int| 0 <= hh < self.num_players implies disc_at(d1, hh, t)
                        == disc_at(d0, hh, t) by {
                        if hh != handle {
                            assert(d1[hh] == d0[hh]);
                        }
                    }
                    lemma_resolve_tick_agrees(
                        self.knowledge(),
                        self.knowledge(),
                        d1,
                        d0,
                        self.num_players as nat,
                        t,
                    );
                }
                assert(self.wf());
            }
        }
    }

    /// The confirmed mask known for a tick and handle, if any: what the
    /// transport layer consults before delivering a confirmation.
    pub fn confirmed_mask(&self, tick: usize, handle: usize) -> (m: Option<u8>)
        ensures
            m == conf_at(self.knowledge(), tick as int, handle as int),
    {
        if tick < self.confirmed.len() {
            let row = &self.confirmed[tick];
            if handle < row.len() {
                return row[handle];
            }
        }
        None
    }

    /// Compares a peer's checksum snapshot for a tick against the local
    /// one. A disagreement is the desync diagnostic: the local simulation
    /// continues on its own authoritative state, nothing is corrected.
    pub fn push_peer_checksum(&self, tick: usize, digest: u64) -> (verdict: PeerComparison)
        requires
            self.wf(),
        ensures
            verdict == (
            if tick < self.checksums@.len() {
                if self.checksums@[tick as int].digest == digest {
                    PeerComparison::Matching
                } else {
                    PeerComparison::DesyncDetected
                }
            } else {
                PeerComparison::Unknown
            }),
    {
        if tick < self.checksums.len() {
            if self.checksums[tick].digest == digest {
                PeerComparison::Matching
            } else {
                PeerComparison::DesyncDetected
            }
        } else {
            PeerComparison::Unknown
        }
    }
}

/// The knowledge a networked session starts with, for the ticks covered by
/// the input delay: local handles confirmed neutral, remote handles
/// unknown.
pub open spec fn prefill_row_spec(kinds: Seq<ParticipantKind>) -> Seq<Option<u8>> {
    Seq::new(
        kinds.len(),
        |h: int|
            if is_local(kinds[h]) {
                Some(0u8)
            } else {
                None
            },
    )
}

/// A knowledge row with no confirmation for any handle.
fn none_row(num: usize) -> (row: Vec<Option<u8>>)
    ensures
        row@ == Seq::new(num as nat, |i: int| Option::<u8>::None),
{
    let mut row: Vec<Option<u8>> = Vec::new();
    let mut i: usize = 0;
    while i < num
        invariant
            i <= num,
            row@ == Seq::new(i as nat, |j: int| Option::<u8>::None),
        decreases num - i,
    {
        row.push(None);
        proof {
            assert(row@ =~= Seq::new((i + 1) as nat, |j: int| Option::<u8>::None));
        }
        i = i + 1;
    }
    row
}

fn prefill_row(kinds: &Vec<ParticipantKind>) -> (row: Vec<Option<u8>>)
    ensures
        row@ == prefill_row_spec(kinds@),
{
    let mut row: Vec<Option<u8>> = Vec::new();
    let n = kinds.len();
    let mut h: usize = 0;
    while h < n
        invariant
            h <= n,
            n == kinds@.len(),
            row@ == prefill_row_spec(kinds@).subrange(0, h as int),
        decreases n - h,
    {
        let entry = match &kinds[h] {
            ParticipantKind::Local => Some(0u8),
            ParticipantKind::Remote { .. } => None,
        };
        row.push(entry);
        proof {
            assert(row@ =~= prefill_row_spec(kinds@).subrange(0, h + 1));
        }
        h = h + 1;
    }
    proof {
        assert(prefill_row_spec(kinds@).subrange(0, n as int) =~= prefill_row_spec(kinds@));
    }
    row
}

/// Determinism across sessions: two sessions that started from the same
/// initial state with the same tick rate and consumed the same resolved
/// input history carry identical checksum snapshot sequences — replaying an
/// identical confirmed-input sequence twice reproduces the stream exactly.
pub proof fn lemma_sessions_agree(a: LocalSession, b: LocalSession)
    requires
        a.wf(),
        b.wf(),
        a.init@ == b.init@,
        a.fps == b.fps,
        hist_view(a.history@) == hist_view(b.history@),
    ensures
        a.checksums@ == b.checksums@,
{
    assert forall|t: int| 0 <= t < a.checksums@.len() implies a.checksums@[t]
        == b.checksums@[t] by {
        assert(a.states@[t]@ == spec_state_at(a.init@, hist_view(a.history@), a.fps, t + 1));
        assert(b.states@[t]@ == spec_state_at(b.init@, hist_view(b.history@), b.fps, t + 1));
    }
    assert(a.checksums@ =~= b.checksums@);
}

/// Determinism of the networked variant: the whole recorded state of a
/// session — resolved frames, snapshots, checksum stream — is a pure
/// function of the initial state, the tick rate, the confirmed-input
/// knowledge and the disconnect record. Two peers that agree on those agree
/// on every checksum, however differently their corrections arrived.
pub proof fn lemma_online_sessions_agree(a: OnlineSession, b: OnlineSession)
    requires
        a.wf(),
        b.wf(),
        a.init@ == b.init@,
        a.fps == b.fps,
        a.num_players == b.num_players,
        a.knowledge() == b.knowledge(),
        a.disconnected_since@ == b.disconnected_since@,
        a.current_tick() == b.current_tick(),
    ensures
        hist_view(a.history@) == hist_view(b.history@),
        a.checksums@ == b.checksums@,
{
    assert forall|t: int| 0 <= t < a.history@.len() implies hist_view(a.history@)[t]
        == hist_view(b.history@)[t] by {
        assert(a.history@[t]@ == spec_resolve_tick(
            a.knowledge(),
            a.disconnected_since@,
            a.num_players as nat,
            t,
        ));
        assert(b.history@[t]@ == spec_resolve_tick(
            b.knowledge(),
            b.disconnected_since@,
            b.num_players as nat,
            t,
        ));
    }
    assert(hist_view(a.history@) =~= hist_view(b.history@));
    assert forall|t: int| 0 <= t < a.checksums@.len() implies a.checksums@[t]
        == b.checksums@[t] by {
        assert(a.states@[t]@ == spec_state_at(a.init@, hist_view(a.history@), a.fps, t + 1));
        assert(b.states@[t]@ == spec_state_at(b.init@, hist_view(b.history@), b.fps, t + 1));
    }
    assert(a.checksums@ =~= b.checksums@);
}

/// The one active session: the local self-test variant and the networked
/// peer-to-peer variant share the advance contract, so the driver is
/// agnostic to which one it runs.
pub enum Session {
    SyncTestSession(LocalSession),
    P2PSession(OnlineSession),
}

impl Session {
    pub open spec fn wf(self) -> bool {
        match self {
            Session::SyncTestSession(s) => s.wf(),
            Session::P2PSession(s) => s.wf() && !s.poisoned,
        }
    }

    /// How many entries `advance` expects in its mask vector: one per
    /// participant, whichever the variant.
    pub open spec fn input_len(self) -> int {
        match self {
            Session::SyncTestSession(s) => s.num_players as int,
            Session::P2PSession(s) => s.num_players as int,
        }
    }

    pub open spec fn current_tick(self) -> int {
        match self {
            Session::SyncTestSession(s) => s.current_tick(),
            Session::P2PSession(s) => s.current_tick(),
        }
    }

    pub open spec fn input_delay(self) -> int {
        match self {
            Session::SyncTestSession(s) => s.input_delay as int,
            Session::P2PSession(s) => s.input_delay as int,
        }
    }
}

/// The session manager: owns at most one active session, creates it, drives
/// it, and tears it down. Starting a new session requires the previous one
/// to have been torn down first.
pub struct SessionManager {
    pub active: Option<Session>,
}

impl SessionManager {
    pub open spec fn wf(self) -> bool {
        match self.active {
            Some(s) => s.wf(),
            None => true,
        }
    }

    /// A manager with no active session.
    pub fn new() -> (m: SessionManager)
        ensures
            m.active is None,
            m.wf(),
    {
        SessionManager { active: None }
    }

    /// Starts a local self-test session (see `LocalSession::start_local`).
    /// The previous session must have been torn down.
    pub fn start_local(
        &mut self,
        num_participants: usize,
        input_delay: usize,
        check_distance: usize,
        fps: u32,
    ) -> (r: Result<(), SessionError>)
        requires
            old(self).wf(),
            old(self).active is None,
        ensures
            final(self).wf(),
            (r matches Err(e)) <==> (num_participants == 0 || num_participants > MAX_PLAYERS
                || check_distance == 0 || fps == 0),
            r matches Err(e) ==> e == SessionError::InvalidConfigurationError
                && final(self).active is None,
            r matches Ok(u) ==> (final(self).active matches Some(s)
                && s matches Session::SyncTestSession(ls) && ls.wf() && ls.num_players
                == num_participants && ls.input_delay == input_delay && ls.check_distance
                == check_distance && ls.fps == fps && ls.current_tick() == 0),
    {
        match LocalSession::start_local(num_participants, input_delay, check_distance, fps) {
            Ok(s) => {
                self.active = Some(Session::SyncTestSession(s));
                Ok(())
            },
            Err(e) => Err(e),
        }
    }

    /// Starts a networked session (see `OnlineSession::start_online`). The
    /// previous session must have been torn down.
    pub fn start_online(
        &mut self,
        num_participants: usize,
        roster: Vec<ParticipantKind>,
        input_delay: usize,
        max_prediction_window: usize,
        fps: u32,
        transport: ConnectStatus,
    ) -> (r: Result<(), SessionError>)
        requires
            old(self).wf(),
            old(self).active is None,
        ensures
            final(self).wf(),
            (num_participants == 0 || num_participants > MAX_PLAYERS || roster@.len()
                != num_participants || max_prediction_window == 0 || fps == 0) ==> r
                == Result::<(), SessionError>::Err(SessionError::InvalidConfigurationError)
                && final(self).active is None,
            !(num_participants == 0 || num_participants > MAX_PLAYERS || roster@.len()
                != num_participants || max_prediction_window == 0 || fps == 0) && (
            transport matches ConnectStatus::Failed) ==> r == Result::<(), SessionError>::Err(
                SessionError::ConnectionError,
            ) && final(self).active is None,
            !(num_participants == 0 || num_participants > MAX_PLAYERS || roster@.len()
                != num_participants || max_prediction_window == 0 || fps == 0) && (
            transport matches ConnectStatus::Established) ==> (r matches Ok(u)
                && final(self).active matches Some(s)
                && s matches Session::P2PSession(os) && os.wf()
                && !os.poisoned && os.num_players == num_participants && os.kinds@ == roster@
                && os.input_delay == input_delay && os.max_prediction_window
                == max_prediction_window && os.fps == fps && os.current_tick() == 0),
    {
        match OnlineSession::start_online(
            num_participants,
            roster,
            input_delay,
            max_prediction_window,
            fps,
            transport,
        ) {
            Ok(s) => {
                self.active = Some(Session::P2PSession(s));
                Ok(())
            },
            Err(e) => Err(e),
        }
    }

    /// Advances the active session one tick, whichever variant it is.
    pub fn advance(&mut self, local_inputs: &Vec<u8>) -> (result: FrameResult)
        requires
            old(self).wf(),
            old(self).active matches Some(s),
            old(self).active matches Some(s) ==> local_inputs@.len() == s.input_len(),
            old(self).active matches Some(s) ==> s.current_tick() + s.input_delay()
                < usize::MAX,
        ensures
            final(self).wf(),
            final(self).active is Some,
            final(self).active matches Some(s)
                ==> s.current_tick() == old(self).active.unwrap().current_tick() + 1
                && s.input_len() == old(self).active.unwrap().input_len()
                && s.input_delay() == old(self).active.unwrap().input_delay(),
            result.desync_detected == false,
            result.checksum.tick == old(self).active.unwrap().current_tick(),
            old(self).active matches Some(s0) && s0 matches Session::SyncTestSession(l0) ==> (
            final(self).active matches Some(s1) && s1 matches Session::SyncTestSession(l1)
                && result.checksum == l1.checksums@.last() && hist_view(l1.history@)
                == hist_view(l0.history@).push(result.frames@) && l1.init == l0.init
                && l1.num_players == l0.num_players && l1.fps == l0.fps),
            old(self).active matches Some(s0) && s0 matches Session::P2PSession(o0) ==> (
            final(self).active matches Some(s1) && s1 matches Session::P2PSession(o1)
                && result.checksum == o1.checksums@.last() && hist_view(o1.history@)
                == hist_view(o0.history@).push(result.frames@) && o1.init == o0.init
                && o1.num_players == o0.num_players && o1.fps == o0.fps && o1.kinds == o0.kinds
                && o1.disconnected_since == o0.disconnected_since && !o1.poisoned),
    {
        let mut taken = None;
        core::mem::swap(&mut taken, &mut self.active);
        match taken {
            Some(Session::SyncTestSession(mut s)) => {
                let r = s.advance(local_inputs);
                self.active = Some(Session::SyncTestSession(s));
                r
            },
            Some(Session::P2PSession(mut s)) => {
                let r = s.advance(local_inputs);
                self.active = Some(Session::P2PSession(s));
                r
            },
            None => {
                proof {
                    assert(false);
                }
                unreached()
            },
        }
    }

    /// Tears the active session down: every per-session resource — input
    /// queues, the rollback history buffer, the checksum history — is
    /// released with it, and the driver must also cancel its transport
    /// task. Idempotent: tearing down an inactive manager does nothing.
    pub fn teardown(&mut self)
        ensures
            final(self).active is None,
            final(self).wf(),
    {
        self.active = None;
    }
}

} // verus!
