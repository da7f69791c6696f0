use rand::rngs::SmallRng;
use rand::{Rng, SeedableRng};
use vstd::prelude::*;

verus! {

/// rand's small, fast, seedable generator; opaque to the proofs.
#[verifier::external_type_specification]
#[verifier::external_body]
pub struct ExSmallRng(SmallRng);

/// Relies on `SeedableRng::seed_from_u64` of rand's `SmallRng`: a generator
/// whose stream depends on the seed alone.
#[verifier::external_body]
fn seeded_rng(seed: u64) -> SmallRng {
    SmallRng::seed_from_u64(seed)
}

/// Relies on `Rng::gen_range` of rand over `low..high` for `u32`: a value in
/// the range; it panics only on an empty range, which `requires` rules out.
#[verifier::external_body]
fn draw_below(rng: &mut SmallRng, bound: u32) -> (r: u32)
    requires
        bound > 0,
    ensures
        r < bound,
{
    rng.gen_range(0..bound)
}

/// Number of outcomes of the draw that decides whether the heading state changes.
pub const CHANGE_DRAW: u32 = 10;

/// Largest turn per step, exclusive, in millionths of a radian.
pub const MAX_TURN: u32 = 1_000_000;

/// Number of waypoints a track has unless asked otherwise.
pub const DEFAULT_STEP_COUNT: usize = 50;

/// How the heading evolves from one step to the next.
#[derive(Clone, Copy, Debug, PartialEq, Eq, Structural)]
pub enum DirectionState {
    Forward,
    Left,
    Right,
}

/// The heading state that the draw `pick` (in `0..3`) selects.
pub open spec fn state_of(pick: int) -> DirectionState {
    if pick == 0 {
        DirectionState::Forward
    } else if pick == 1 {
        DirectionState::Left
    } else {
        DirectionState::Right
    }
}

/// One step of the track: the heading state after the step and the angle,
/// in millionths of a radian, by which the heading turns (counterclockwise
/// positive).
#[derive(Clone, Copy, Debug, PartialEq, Eq, Structural)]
pub struct Turn {
    pub state: DirectionState,
    pub angle: i32,
}

/// The turn of a step in state `state`, with `magnitude` the drawn size of
/// the turn.
pub open spec fn turn_of(state: DirectionState, magnitude: int) -> Turn {
    match state {
        DirectionState::Forward => Turn { state, angle: 0 },
        DirectionState::Left => Turn { state, angle: magnitude as i32 },
        DirectionState::Right => Turn { state, angle: -magnitude as i32 },
    }
}

/// A turn that a step can produce: no turn going forward, a turn in
/// `[0, 1)` radian to the left, or in `(-1, 0]` to the right.
pub open spec fn valid_turn(t: Turn) -> bool {
    match t.state {
        DirectionState::Forward => t.angle == 0,
        DirectionState::Left => 0 <= t.angle < MAX_TURN,
        DirectionState::Right => -MAX_TURN < t.angle <= 0,
    }
}

/// The seeded random walk of the heading state: the state and the number of
/// steps since it last changed.
pub struct TrackGenerator {
    rng: SmallRng,
    state: DirectionState,
    same_direction_count: u32,
}

impl View for TrackGenerator {
    type V = (DirectionState, nat);

    closed spec fn view(&self) -> (DirectionState, nat) {
        (self.state, self.same_direction_count as nat)
    }
}

/// The state and streak after a step that drew `r` and, where the state
/// changes, `pick`: the state changes with probability `streak / 10`.
pub open spec fn next_state(state: DirectionState, streak: nat, r: int, pick: int) -> (DirectionState, nat) {
    if r < streak {
        (state_of(pick), 1)
    } else {
        (state, streak + 1)
    }
}

impl TrackGenerator {
    pub open spec fn wf(&self) -> bool {
        1 <= self@.1 <= CHANGE_DRAW
    }

    /// A generator seeded with `seed`, heading forward.
    pub fn new(seed: u64) -> (r: Self)
        ensures
            r@ == (DirectionState::Forward, 1nat),
            r.wf(),
    {
        TrackGenerator { rng: seeded_rng(seed), state: DirectionState::Forward, same_direction_count: 1 }
    }

    /// The current heading state.
    pub fn state(&self) -> (r: DirectionState)
        ensures
            r == self@.0,
    {
        self.state
    }

    /// The number of steps since the heading state last changed.
    pub fn streak(&self) -> (r: u32)
        ensures
            r == self@.1,
    {
        self.same_direction_count
    }

    /// Moves the state machine on by the draw `r` (in `0..10`) and, where the
    /// state changes, the draw `pick` (in `0..3`).
    pub fn decide(&mut self, r: u32, pick: u32)
        requires
            old(self).wf(),
            r < CHANGE_DRAW,
            pick < 3,
        ensures
            final(self)@ == next_state(old(self)@.0, old(self)@.1, r as int, pick as int),
            final(self).wf(),
    {
        if r < self.same_direction_count {
            self.state = if pick == 0 {
                DirectionState::Forward
            } else if pick == 1 {
                DirectionState::Left
            } else {
                DirectionState::Right
            };
            self.same_direction_count = 1;
        } else {
            self.same_direction_count = self.same_direction_count + 1;
        }
    }

    /// The turn of a step in `state` whose size is `magnitude`.
    pub fn turn(state: DirectionState, magnitude: u32) -> (t: Turn)
        requires
            magnitude < MAX_TURN,
        ensures
            t == turn_of(state, magnitude as int),
            valid_turn(t),
    {
        match state {
            DirectionState::Forward => Turn { state, angle: 0 },
            DirectionState::Left => Turn { state, angle: magnitude as i32 },
            DirectionState::Right => Turn { state, angle: -(magnitude as i32) },
        }
    }

    /// One step of the walk: draws whether the state changes and, if so, the
    /// new state, then the size of the turn where the state turns.
    pub fn step(&mut self) -> (t: Turn)
        requires
            old(self).wf(),
        ensures
            final(self).wf(),
            final(self)@.1 == 1 || (final(self)@.1 == old(self)@.1 + 1 && final(self)@.0 == old(self)@.0),
            t.state == final(self)@.0,
            valid_turn(t),
    {
        let r = draw_below(&mut self.rng, CHANGE_DRAW);
        let pick = if r < self.same_direction_count {
            draw_below(&mut self.rng, 3)
        } else {
            0
        };
        self.decide(r, pick);
        let magnitude = match self.state {
            DirectionState::Forward => 0,
            _ => draw_below(&mut self.rng, MAX_TURN),
        };
        TrackGenerator::turn(self.state, magnitude)
    }
}

/// The turns of a track of `step_count` steps, from a generator seeded with
/// `seed`.
pub fn generate_turns(seed: u64, step_count: usize) -> (r: Vec<Turn>)
    ensures
        r@.len() == step_count,
        forall|i: int| 0 <= i < r@.len() ==> valid_turn(#[trigger] r@[i]),
{
    let mut g = TrackGenerator::new(seed);
    let mut turns: Vec<Turn> = Vec::new();
    let mut i: usize = 0;
    while i < step_count
        invariant
            g.wf(),
            0 <= i <= step_count,
            turns@.len() == i,
            forall|k: int| 0 <= k < i ==> valid_turn(#[trigger] turns@[k]),
        decreases step_count - i,
    {
        let t = g.step();
        turns.push(t);
        i = i + 1;
    }
    turns
}

/// `v` held to the range of `i32`.
pub open spec fn clamp32(v: int) -> int {
    if v < i32::MIN {
        i32::MIN as int
    } else if v > i32::MAX {
        i32::MAX as int
    } else {
        v
    }
}

/// The waypoints reached from `start` by the displacements `dirs`, one per
/// displacement, each coordinate held to the range of `i32`.
pub open spec fn track_points(start: (i32, i32), dirs: Seq<(i32, i32)>) -> Seq<(i32, i32)>
    decreases dirs.len(),
{
    if dirs.len() == 0 {
        seq![]
    } else {
        let prev = track_points(start, dirs.drop_last());
        let from = if prev.len() == 0 {
            start
        } else {
            prev.last()
        };
        let d = dirs.last();
        prev.push((clamp32(from.0 + d.0) as i32, clamp32(from.1 + d.1) as i32))
    }
}

/// `a + b`, held to the range of `i32`.
fn add_clamped(a: i32, b: i32) -> (r: i32)
    ensures
        r == clamp32(a + b),
{
    let s: i64 = a as i64 + b as i64;
    if s < i32::MIN as i64 {
        i32::MIN
    } else if s > i32::MAX as i64 {
        i32::MAX
    } else {
        s as i32
    }
}

/// The waypoints of a track: from `start`, each displacement in turn moves to
/// the next waypoint.
pub fn waypoints(start: (i32, i32), dirs: &[(i32, i32)]) -> (r: Vec<(i32, i32)>)
    ensures
        r@ == track_points(start, dirs@),
{
    let mut out: Vec<(i32, i32)> = Vec::new();
    let mut current = start;
    let mut i: usize = 0;
    while i < dirs.len()
        invariant
            0 <= i <= dirs@.len(),
            out@ == track_points(start, dirs@.take(i as int)),
            current == (if i == 0 { start } else { out@.last() }),
        decreases dirs@.len() - i,
    {
        let d = dirs[i];
        current = (add_clamped(current.0, d.0), add_clamped(current.1, d.1));
        out.push(current);
        proof {
            assert(dirs@.take(i + 1).drop_last() =~= dirs@.take(i as int));
        }
        i = i + 1;
    }
    assert(dirs@.take(dirs@.len() as int) =~= dirs@);
    out
}

/// Every track has one waypoint per displacement.
pub proof fn lemma_track_length(start: (i32, i32), dirs: Seq<(i32, i32)>)
    ensures
        track_points(start, dirs).len() == dirs.len(),
    decreases dirs.len(),
{
    if dirs.len() > 0 {
        lemma_track_length(start, dirs.drop_last());
    }
}

/// The first `i + 1` waypoints depend on the first `i + 1` displacements only.
proof fn lemma_track_prefix(start: (i32, i32), dirs: Seq<(i32, i32)>, i: int)
    requires
        0 <= i < dirs.len(),
    ensures
        track_points(start, dirs)[i] == track_points(start, dirs.take(i + 1)).last(),
        track_points(start, dirs.take(i + 1)).len() == i + 1,
    decreases dirs.len(),
{
    lemma_track_length(start, dirs);
    lemma_track_length(start, dirs.take(i + 1));
    if i + 1 < dirs.len() {
        assert(dirs.drop_last().take(i + 1) =~= dirs.take(i + 1));
        lemma_track_prefix(start, dirs.drop_last(), i);
        lemma_track_length(start, dirs.drop_last());
    } else {
        assert(dirs.take(i + 1) =~= dirs);
    }
}

/// Where no displacement is zero and no waypoint reaches the edge of the
/// range of `i32`, no two consecutive waypoints are equal, and the first is
/// not the start.
pub proof fn lemma_consecutive_waypoints_differ(start: (i32, i32), dirs: Seq<(i32, i32)>, i: int)
    requires
        0 <= i < dirs.len(),
        forall|k: int| 0 <= k < dirs.len() ==> #[trigger] dirs[k] != (0i32, 0i32),
        forall|k: int|
            0 <= k < dirs.len() ==> i32::MIN < (#[trigger] track_points(start, dirs)[k]).0 < i32::MAX
                && i32::MIN < track_points(start, dirs)[k].1 < i32::MAX,
    ensures
        track_points(start, dirs)[i] != (if i == 0 { start } else { track_points(start, dirs)[i - 1] }),
{
    let pts = track_points(start, dirs);
    lemma_track_prefix(start, dirs, i);
    let pre = dirs.take(i + 1);
    assert(pre.drop_last() =~= dirs.take(i));
    let prev = track_points(start, dirs.take(i));
    lemma_track_length(start, dirs.take(i));
    if i > 0 {
        lemma_track_prefix(start, dirs, i - 1);
        assert(dirs.take(i - 1 + 1) =~= dirs.take(i));
    }
    let from = if i == 0 { start } else { prev.last() };
    let d = dirs[i];
    assert(pre.last() == d);
    assert(pts[i] == (clamp32(from.0 + d.0) as i32, clamp32(from.1 + d.1) as i32));
}

} // verus!
