//! The autonomous locomotion state machine that drives the chain's head
//! toward a wandering destination, plus the two auxiliary tail machines.
//!
//! Angular quantities are carried as fixed-point cosines and sines
//! (`⌊cos φ · SCALE⌋`), so every steering decision is an exact integer
//! comparison.

use vstd::prelude::*;

verus! {

use crate::chain::{Chain, ChainConfig, ChainError, Orientation, orientation_of, angle_lt_cos,
    prop_down, prop_up, MAX_SEGMENTS, TAIL_DELTA, MIN_TAIL_RADIUS, POS_AFTER};
use crate::circle::{Circle, CircleModel, POS_LIMIT, RADIUS_LIMIT};
use crate::vec2::{Vec2, Vec2Model, lemma_rotated_in_box};
use crate::math::{SCALE, tdiv, clamped_down, mul_div, lemma_tdiv_in_range,
    lemma_mul_abs_bound};

/// Ticks spent pushing straight ahead after the destination was found inside
/// a blind spot.
pub const FORWARD_TICKS: u32 = 30;

/// Dwell of the tail-size machine's resting state.
pub const TAIL_NORMAL_TICKS: u32 = 30;

/// Dwell of the tail-size machine's growing state.
pub const TAIL_GROW_TICKS: u32 = 15;

/// Dwell of the tail-size machine's shrinking state.
pub const TAIL_SHRINK_TICKS: u32 = 15;

/// Dwell of each side of the tail-sway machine.
pub const TAIL_SHAKE_TICKS: u32 = 10;

/// Speed gained per straight tick (0.1 unit in milli-units).
pub const ACCELERATION: i64 = 100;

/// Speed lost per turning tick (0.05 unit in milli-units).
pub const DECELERATION: i64 = 50;

/// Safety margin added to the minimum turning radius (50 units).
pub const BLIND_SPOT_MARGIN: i64 = 50_000;

/// Extra slack beyond the head's radius within which the destination counts
/// as reached (5 units).
pub const REACH_MARGIN: i64 = 5_000;

/// Half-width of the rectangle destinations are drawn from (400 units).
pub const DEST_X_RANGE: i64 = 400_000;

/// Half-height of the rectangle destinations are drawn from (300 units).
pub const DEST_Y_RANGE: i64 = 300_000;

/// Largest speed the arithmetic admits.
pub const SPEED_LIMIT: i64 = 0x2_0000;

/// Positions must start a tick within this box so that one head move plus a
/// full propagation pass stays within safe bounds.
pub const POS_TICK: i64 = 0x1FFE_0000;

/// Ticks left on the sway machine's first, shortened stint.
pub const TAIL_SHAKE_INITIAL_TICKS: u32 = 5;

/// The steering states.  `Forward` carries the number of remaining ticks of
/// its push.
#[derive(Clone, Copy, PartialEq, Eq, Structural, Debug)]
pub enum FsmAction {
    GoStraight,
    Forward(u32),
    TurnLeft,
    TurnRight,
    Target,
    Look,
    LookLeft,
    LookRight,
    Spiral,
    Orient,
    Reach,
}

impl FsmAction {
    /// A temporary (transient) state is re-evaluated within the same tick;
    /// only the four stable states end a tick.
    pub fn is_temporary(&self) -> (r: bool)
        ensures
            r == self.is_transient(),
    {
        match self {
            Self::GoStraight => false,
            Self::Forward(_) => false,
            Self::TurnLeft => false,
            Self::TurnRight => false,
            Self::Target => true,
            Self::Look => true,
            Self::LookLeft => true,
            Self::LookRight => true,
            Self::Spiral => true,
            Self::Orient => true,
            Self::Reach => true,
        }
    }

    /// Specification twin of `is_temporary`.
    pub open spec fn is_transient(self) -> bool {
        match self {
            FsmAction::GoStraight => false,
            FsmAction::Forward(_) => false,
            FsmAction::TurnLeft => false,
            FsmAction::TurnRight => false,
            _ => true,
        }
    }

    /// An upper bound on how many more transitions a state can make within
    /// one tick before a stable state is reached.
    pub open spec fn rank(self) -> int {
        match self {
            FsmAction::GoStraight => 0,
            FsmAction::Forward(_) => 0,
            FsmAction::TurnLeft => 0,
            FsmAction::TurnRight => 0,
            FsmAction::Orient => 1,
            FsmAction::LookLeft => 1,
            FsmAction::LookRight => 1,
            FsmAction::Spiral => 2,
            FsmAction::Look => 3,
            FsmAction::Target => 4,
            FsmAction::Reach => 5,
        }
    }
}

/// The tail pulsation machine; each state carries the ticks left in it.
#[derive(Clone, Copy, PartialEq, Eq, Structural, Debug)]
pub enum FsmTailSize {
    Normal(u32),
    Shrink(u32),
    Grow(u32),
}

/// The tail sway machine; each state carries the ticks left in it.
#[derive(Clone, Copy, PartialEq, Eq, Structural, Debug)]
pub enum FsmTailShake {
    Left(u32),
    Right(u32),
}

/// `v` clamped into `[lo, hi]`, raising to `lo` first and capping at `hi`
/// second (so an inverted interval yields `hi`).
pub open spec fn clamp_speed(v: int, lo: int, hi: int) -> int {
    let raised = if v < lo {
        lo
    } else {
        v
    };
    if raised > hi {
        hi
    } else {
        raised
    }
}

/// Relies on rand's `Rng::gen_range` with the thread-local generator: it
/// returns a value of the half-open range `lo..hi` and panics only when the
/// range is empty.  Nothing more is assumed of the outcome.
#[verifier::external_body]
fn random_in_range(lo: i64, hi: i64) -> (r: i64)
    requires
        lo < hi,
    ensures
        lo <= r < hi,
{
    rand::Rng::gen_range(&mut rand::thread_rng(), lo..hi)
}

/// The locomotion agent: the chain it owns, its wandering destination, the
/// vision and turning parameters as fixed-point cosines and sines, speed
/// bounds, and the three state machines.
pub struct Snake {
    pub chain: Chain,
    pub destination: Vec2,
    /// `⌊cos(vision half-angle) · SCALE⌋`.
    pub cos_vision: i64,
    /// `⌊cos(vision half-angle / 4) · SCALE⌋`.
    pub cos_quarter_vision: i64,
    pub speed: i64,
    pub min_speed: i64,
    pub max_speed: i64,
    pub action: FsmAction,
    pub tail_size: FsmTailSize,
    pub tail_shake: FsmTailShake,
    /// `⌊cos(turn angle) · SCALE⌋`.
    pub cos_turn: i64,
    /// `⌊sin(turn angle) · SCALE⌋`; positive, the turn angle is in `(0, π)`.
    pub sin_turn: i64,
}

/// The construction parameters of a `Snake`.
pub struct SnakeConfig {
    pub chain: ChainConfig,
    pub cos_vision: i64,
    pub cos_quarter_vision: i64,
    pub cos_turn: i64,
    pub sin_turn: i64,
    pub min_speed: i64,
    pub max_speed: i64,
    pub speed: i64,
}

impl SnakeConfig {
    /// Valid parameters: a valid chain, cosines within one fixed-point
    /// unit, a strictly positive turn sine, and ordered speed bounds.
    pub open spec fn valid(self) -> bool {
        &&& self.chain.valid()
        &&& -SCALE <= self.cos_vision <= SCALE
        &&& -SCALE <= self.cos_quarter_vision <= SCALE
        &&& -SCALE <= self.cos_turn <= SCALE
        &&& 0 < self.sin_turn <= SCALE
        &&& 0 <= self.min_speed <= self.speed <= self.max_speed <= SPEED_LIMIT
    }
}

impl Snake {
    /// The head segment's model.
    pub open spec fn head(self) -> CircleModel {
        self.chain.circles@[0]@
    }

    /// The tunable parameters are in range.
    pub open spec fn params_wf(self) -> bool {
        &&& -SCALE <= self.cos_vision <= SCALE
        &&& -SCALE <= self.cos_quarter_vision <= SCALE
        &&& -SCALE <= self.cos_turn <= SCALE
        &&& 0 < self.sin_turn <= SCALE
        &&& 0 <= self.min_speed <= self.max_speed <= SPEED_LIMIT
        &&& self.min_speed <= self.speed <= self.max_speed
    }

    /// Structural well-formedness of the whole agent.
    pub open spec fn wf(self) -> bool {
        &&& 2 <= self.chain.circles@.len() <= MAX_SEGMENTS
        &&& self.chain.outlines_lower@.len() == self.chain.circles@.len()
        &&& self.chain.outlines_upper@.len() == self.chain.circles@.len()
        &&& self.params_wf()
    }

    /// Everything one tick needs: a well-formed agent whose geometry starts
    /// the tick within the box the propagation arithmetic admits.
    pub open spec fn tick_ready(self) -> bool {
        &&& self.wf()
        &&& self.chain.params_all_ok()
        &&& self.chain.positions_in_box(POS_TICK as int)
        &&& self.destination@.in_box(POS_TICK as int)
        &&& self.head().direction.in_box(2 * SCALE as int)
    }

    /// The destination lies strictly within the vision cone.
    pub open spec fn sees_destination(self) -> bool {
        angle_lt_cos(
            self.head().direction,
            self.destination@.minus(self.head().position),
            self.cos_vision as int,
        )
    }

    /// The destination lies strictly beyond a quarter of the vision cone;
    /// the looking states keep turning exactly while this holds.
    pub open spec fn beyond_quarter(self) -> bool {
        crate::chain::angle_gt_cos(
            self.head().direction,
            self.destination@.minus(self.head().position),
            self.cos_quarter_vision as int,
        )
    }

    /// The minimum turning circle's radius, inflated by the safety margin:
    /// `max_speed / (2 sin(turn angle)) + 50` units.
    pub open spec fn blind_radius(self) -> int {
        tdiv(self.max_speed * SCALE, 2 * self.sin_turn) + BLIND_SPOT_MARGIN
    }

    /// The center of the blind-spot circle on the side selected by the
    /// quarter-turn rotor sine `s` (`-SCALE` for the left side, `SCALE` for
    /// the right): `position + rotate(heading, ±90°) · radius · 0.8`.
    pub open spec fn blind_center(self, s: int) -> Vec2Model {
        self.head().position.plus(
            self.head().direction.rotated(0, s).scaled_by(tdiv(self.blind_radius() * 800, SCALE as int)),
        )
    }

    /// The destination lies inside one of the two blind-spot circles.
    pub open spec fn in_blind_spot(self) -> bool {
        ||| self.destination@.minus(self.blind_center(-(SCALE as int))).norm_sq()
            < self.blind_radius() * self.blind_radius()
        ||| self.destination@.minus(self.blind_center(SCALE as int)).norm_sq()
            < self.blind_radius() * self.blind_radius()
    }

    /// The side of the heading line the destination lies on.
    pub open spec fn head_orientation(self) -> Orientation {
        orientation_of(
            self.head().position,
            self.head().position.plus(self.head().direction.scaled_by(100 * SCALE as int)),
            self.destination@,
        )
    }

    /// The head's center is within its own radius plus the reach margin of
    /// the destination.
    pub open spec fn reached_destination(self) -> bool {
        self.head().position.minus(self.destination@).norm_sq() < (self.head().radius
            + REACH_MARGIN) * (self.head().radius + REACH_MARGIN)
    }

    /// The steering transition table.
    pub open spec fn next_action(self) -> FsmAction {
        match self.action {
            FsmAction::Target => FsmAction::Look,
            FsmAction::Look => if self.sees_destination() {
                FsmAction::GoStraight
            } else {
                FsmAction::Spiral
            },
            FsmAction::Spiral => if self.in_blind_spot() {
                FsmAction::Forward(FORWARD_TICKS)
            } else {
                FsmAction::Orient
            },
            FsmAction::Forward(i) => if i == 0 {
                FsmAction::Orient
            } else {
                FsmAction::Forward((i - 1) as u32)
            },
            FsmAction::Orient => match self.head_orientation() {
                Orientation::LEFT => FsmAction::TurnLeft,
                Orientation::RIGHT => FsmAction::TurnRight,
                Orientation::CENTER => FsmAction::TurnRight,
            },
            FsmAction::LookLeft => if self.beyond_quarter() {
                FsmAction::TurnLeft
            } else {
                FsmAction::GoStraight
            },
            FsmAction::LookRight => if self.beyond_quarter() {
                FsmAction::TurnRight
            } else {
                FsmAction::GoStraight
            },
            FsmAction::TurnLeft => FsmAction::LookLeft,
            FsmAction::TurnRight => FsmAction::LookRight,
            FsmAction::GoStraight => FsmAction::Reach,
            FsmAction::Reach => if self.reached_destination() {
                FsmAction::Target
            } else {
                FsmAction::GoStraight
            },
        }
    }

    /// Step the steering machine by its transition table; nothing but the
    /// steering state changes.
    pub fn transition(&mut self)
        requires
            old(self).wf(),
            old(self).chain.params_all_ok(),
            old(self).head().position.in_box(POS_TICK as int),
            old(self).destination@.in_box(POS_TICK as int),
            old(self).head().direction.in_box(16 * SCALE as int),
        ensures
            final(self).action == old(self).next_action(),
            final(self).chain == old(self).chain,
            final(self).destination == old(self).destination,
            final(self).speed == old(self).speed,
            final(self).tail_size == old(self).tail_size,
            final(self).tail_shake == old(self).tail_shake,
            final(self).cos_vision == old(self).cos_vision,
            final(self).cos_quarter_vision == old(self).cos_quarter_vision,
            final(self).cos_turn == old(self).cos_turn,
            final(self).sin_turn == old(self).sin_turn,
            final(self).min_speed == old(self).min_speed,
            final(self).max_speed == old(self).max_speed,
    {
        let head: Circle = self.chain.circles[0];
        self.action = match self.action {
            FsmAction::Target => FsmAction::Look,
            FsmAction::Look => {
                let to_dest: Vec2 = self.destination.minus(&head.position);
                if Chain::angle_within(&head.direction, &to_dest, self.cos_vision) {
                    FsmAction::GoStraight
                } else {
                    FsmAction::Spiral
                }
            },
            FsmAction::Spiral => {
                if self.destination_in_blind_spot() {
                    FsmAction::Forward(FORWARD_TICKS)
                } else {
                    FsmAction::Orient
                }
            },
            FsmAction::Forward(i) => {
                if i == 0 {
                    FsmAction::Orient
                } else {
                    FsmAction::Forward(i - 1)
                }
            },
            FsmAction::Orient => {
                let ahead: Vec2 = head.position.plus(&head.direction.scaled_by(100 * SCALE));
                match Chain::orientation_test(&head.position, &ahead, &self.destination) {
                    Orientation::LEFT => FsmAction::TurnLeft,
                    Orientation::RIGHT => FsmAction::TurnRight,
                    Orientation::CENTER => FsmAction::TurnRight,
                }
            },
            FsmAction::LookLeft => {
                let to_dest: Vec2 = self.destination.minus(&head.position);
                if Chain::angle_beyond(&head.direction, &to_dest, self.cos_quarter_vision) {
                    FsmAction::TurnLeft
                } else {
                    FsmAction::GoStraight
                }
            },
            FsmAction::LookRight => {
                let to_dest: Vec2 = self.destination.minus(&head.position);
                if Chain::angle_beyond(&head.direction, &to_dest, self.cos_quarter_vision) {
                    FsmAction::TurnRight
                } else {
                    FsmAction::GoStraight
                }
            },
            FsmAction::TurnLeft => FsmAction::LookLeft,
            FsmAction::TurnRight => FsmAction::LookRight,
            FsmAction::GoStraight => FsmAction::Reach,
            FsmAction::Reach => {
                let away: Vec2 = head.position.minus(&self.destination);
                let d2: i128 = away.norm_sq();
                let limit: i64 = head.radius + REACH_MARGIN;
                proof {
                    lemma_mul_abs_bound(limit as int, limit as int, 0x4_0000, 0x4_0000);
                }
                if d2 < (limit as i128) * (limit as i128) {
                    FsmAction::Target
                } else {
                    FsmAction::GoStraight
                }
            },
        };
    }

    /// The blind-spot containment test, shared between the transition table
    /// and the rendering of the blind spots.
    pub fn destination_in_blind_spot(&self) -> (r: bool)
        requires
            self.wf(),
            self.chain.params_all_ok(),
            self.head().position.in_box(POS_TICK as int),
            self.destination@.in_box(POS_TICK as int),
            self.head().direction.in_box(16 * SCALE as int),
        ensures
            r == self.in_blind_spot(),
    {
        let geo: (Vec2, Vec2, i64) = self.blind_spot_geometry();
        let dl: Vec2 = self.destination.minus(&geo.0);
        let dr: Vec2 = self.destination.minus(&geo.1);
        proof {
            lemma_mul_abs_bound(geo.2 as int, geo.2 as int, 0x800_0000, 0x800_0000);
        }
        let r2: i128 = (geo.2 as i128) * (geo.2 as i128);
        dl.norm_sq() < r2 || dr.norm_sq() < r2
    }

    /// The two blind-spot circle centers (left, right) and their radius.
    pub fn blind_spot_geometry(&self) -> (r: (Vec2, Vec2, i64))
        requires
            self.wf(),
            self.chain.params_all_ok(),
            self.head().position.in_box(POS_TICK as int),
            self.head().direction.in_box(16 * SCALE as int),
        ensures
            r.0@ == self.blind_center(-(SCALE as int)),
            r.1@ == self.blind_center(SCALE as int),
            r.2 == self.blind_radius(),
            0 < r.2 <= 0x800_0000,
            r.0@.in_box(0x2_0000_0000),
            r.1@.in_box(0x2_0000_0000),
    {
        proof {
            let d: int = 2 * self.sin_turn as int;
            let a: int = self.max_speed * (SCALE as int);
            assert(0 <= a <= 0x400_0000 * d) by (nonlinear_arith)
                requires
                    0 <= self.max_speed <= 0x2_0000,
                    d >= 2,
                    a == self.max_speed * 1000,
            ;
            lemma_tdiv_in_range(a, d, 0x400_0000);
            vstd::arithmetic::div_mod::lemma_div_pos_is_pos(a, d);
        }
        let radius: i64 = mul_div(self.max_speed, SCALE, 2 * self.sin_turn) + BLIND_SPOT_MARGIN;
        proof {
            lemma_mul_abs_bound(radius as int, 800, 0x800_0000, 800);
            lemma_tdiv_in_range((radius as int) * 800, SCALE as int, 0x800_0000);
        }
        let scale_08: i64 = mul_div(radius, 800, SCALE);
        let head: Circle = self.chain.circles[0];
        proof {
            lemma_rotated_in_box(self.head().direction, 0, -(SCALE as int), 16 * SCALE as int);
            lemma_rotated_in_box(self.head().direction, 0, SCALE as int, 16 * SCALE as int);
        }
        let rot_left: Vec2 = Chain::rotate_vector(&head.direction, 0, -SCALE);
        let rot_right: Vec2 = Chain::rotate_vector(&head.direction, 0, SCALE);
        proof {
            lemma_mul_abs_bound(rot_left@.x, scale_08 as int, 32 * SCALE as int, 0x800_0000);
            lemma_mul_abs_bound(rot_left@.y, scale_08 as int, 32 * SCALE as int, 0x800_0000);
            lemma_mul_abs_bound(rot_right@.x, scale_08 as int, 32 * SCALE as int, 0x800_0000);
            lemma_mul_abs_bound(rot_right@.y, scale_08 as int, 32 * SCALE as int, 0x800_0000);
            lemma_tdiv_in_range(rot_left@.x * scale_08, SCALE as int, 0x1_0000_0000);
            lemma_tdiv_in_range(rot_left@.y * scale_08, SCALE as int, 0x1_0000_0000);
            lemma_tdiv_in_range(rot_right@.x * scale_08, SCALE as int, 0x1_0000_0000);
            lemma_tdiv_in_range(rot_right@.y * scale_08, SCALE as int, 0x1_0000_0000);
        }
        let off_left: Vec2 = rot_left.scaled_by(scale_08);
        let off_right: Vec2 = rot_right.scaled_by(scale_08);
        let center_left: Vec2 = head.position.plus(&off_left);
        let center_right: Vec2 = head.position.plus(&off_right);
        (center_left, center_right, radius)
    }


    /// The speed after the current state's movement effect.
    pub open spec fn speed_after_move(self) -> int {
        match self.action {
            FsmAction::GoStraight => clamp_speed(
                self.speed + ACCELERATION,
                self.min_speed as int,
                self.max_speed as int,
            ),
            FsmAction::Forward(_) => clamp_speed(
                self.speed + ACCELERATION,
                self.min_speed as int,
                self.max_speed as int,
            ),
            FsmAction::TurnLeft => clamp_speed(
                self.speed - DECELERATION,
                self.min_speed as int,
                self.max_speed as int,
            ),
            FsmAction::TurnRight => clamp_speed(
                self.speed - DECELERATION,
                self.min_speed as int,
                self.max_speed as int,
            ),
            _ => self.speed as int,
        }
    }

    /// The head segment after the current state's movement effect: straight
    /// travel re-aims the heading at the destination, turns rotate it by
    /// the turn rotor, and every other state leaves the head alone.
    pub open spec fn head_after_move(self) -> CircleModel {
        match self.action {
            FsmAction::GoStraight => self.head().aimed_at(self.destination@),
            FsmAction::TurnLeft => CircleModel {
                direction: self.head().direction.rotated(
                    self.cos_turn as int,
                    -(self.sin_turn as int),
                ),
                ..self.head()
            },
            FsmAction::TurnRight => CircleModel {
                direction: self.head().direction.rotated(
                    self.cos_turn as int,
                    self.sin_turn as int,
                ),
                ..self.head()
            },
            _ => self.head(),
        }
    }

    /// Apply the current state's movement effect: only the four stable
    /// states change the head's heading or the speed.
    pub fn move_action(&mut self)
        requires
            old(self).wf(),
            old(self).head().position.in_box(2 * POS_LIMIT as int),
            old(self).destination@.in_box(POS_LIMIT as int),
            old(self).head().direction.in_box(0x1_0000_0000),
        ensures
            final(self).chain.circles@.len() == old(self).chain.circles@.len(),
            final(self).chain.circles@[0]@ == old(self).head_after_move(),
            forall|m: int|
                0 < m < old(self).chain.circles@.len() ==> #[trigger] final(self).chain.circles@[m] == old(self).chain.circles@[m],
            old(self).action.is_transient() ==> final(self).chain == old(self).chain,
            final(self).speed == old(self).speed_after_move(),
            final(self).chain.outlines_lower == old(self).chain.outlines_lower,
            final(self).chain.outlines_upper == old(self).chain.outlines_upper,
            final(self).destination == old(self).destination,
            final(self).action == old(self).action,
            final(self).tail_size == old(self).tail_size,
            final(self).tail_shake == old(self).tail_shake,
            final(self).cos_vision == old(self).cos_vision,
            final(self).cos_quarter_vision == old(self).cos_quarter_vision,
            final(self).cos_turn == old(self).cos_turn,
            final(self).sin_turn == old(self).sin_turn,
            final(self).min_speed == old(self).min_speed,
            final(self).max_speed == old(self).max_speed,
    {
        match self.action {
            FsmAction::GoStraight => {
                let mut head: Circle = self.chain.circles[0];
                head.set_target(&self.destination);
                self.chain.circles[0] = head;
                self.modify_speed(ACCELERATION);
            },
            FsmAction::TurnLeft => {
                let mut head: Circle = self.chain.circles[0];
                head.direction = Chain::rotate_vector(&head.direction, self.cos_turn, -self.sin_turn);
                self.chain.circles[0] = head;
                self.modify_speed(-DECELERATION);
            },
            FsmAction::TurnRight => {
                let mut head: Circle = self.chain.circles[0];
                head.direction = Chain::rotate_vector(&head.direction, self.cos_turn, self.sin_turn);
                self.chain.circles[0] = head;
                self.modify_speed(-DECELERATION);
            },
            FsmAction::Forward(_) => {
                self.modify_speed(ACCELERATION);
            },
            _ => {},
        }
    }

    /// The one extra effect: entering `Target` re-draws the destination
    /// uniformly at random within the fixed rectangle.
    pub fn extra_action(&mut self)
        ensures
            old(self).action is Target ==> {
                &&& -DEST_X_RANGE <= final(self).destination.x < DEST_X_RANGE
                &&& -DEST_Y_RANGE <= final(self).destination.y < DEST_Y_RANGE
                &&& final(self).chain == old(self).chain
                &&& final(self).speed == old(self).speed
                &&& final(self).action == old(self).action
                &&& final(self).tail_size == old(self).tail_size
                &&& final(self).tail_shake == old(self).tail_shake
                &&& final(self).cos_vision == old(self).cos_vision
                &&& final(self).cos_quarter_vision == old(self).cos_quarter_vision
                &&& final(self).cos_turn == old(self).cos_turn
                &&& final(self).sin_turn == old(self).sin_turn
                &&& final(self).min_speed == old(self).min_speed
                &&& final(self).max_speed == old(self).max_speed
            },
            !(old(self).action is Target) ==> *final(self) == *old(self),
    {
        match self.action {
            FsmAction::Target => {
                let x: i64 = random_in_range(-DEST_X_RANGE, DEST_X_RANGE);
                let y: i64 = random_in_range(-DEST_Y_RANGE, DEST_Y_RANGE);
                self.destination = Vec2::new(x, y);
            },
            _ => {},
        }
    }

    /// The tail pulsation cycle: rest, grow, shrink, rest again.
    pub open spec fn next_tail_size(t: FsmTailSize) -> FsmTailSize {
        match t {
            FsmTailSize::Normal(i) => if i == 0 {
                FsmTailSize::Grow(TAIL_GROW_TICKS)
            } else {
                FsmTailSize::Normal((i - 1) as u32)
            },
            FsmTailSize::Grow(i) => if i == 0 {
                FsmTailSize::Shrink(TAIL_SHRINK_TICKS)
            } else {
                FsmTailSize::Grow((i - 1) as u32)
            },
            FsmTailSize::Shrink(i) => if i == 0 {
                FsmTailSize::Normal(TAIL_NORMAL_TICKS)
            } else {
                FsmTailSize::Shrink((i - 1) as u32)
            },
        }
    }

    /// Step the tail pulsation machine.
    pub fn tail_size_transition(&mut self)
        ensures
            final(self).tail_size == Self::next_tail_size(old(self).tail_size),
            final(self).chain == old(self).chain,
            final(self).destination == old(self).destination,
            final(self).speed == old(self).speed,
            final(self).action == old(self).action,
            final(self).tail_shake == old(self).tail_shake,
            final(self).cos_vision == old(self).cos_vision,
            final(self).cos_quarter_vision == old(self).cos_quarter_vision,
            final(self).cos_turn == old(self).cos_turn,
            final(self).sin_turn == old(self).sin_turn,
            final(self).min_speed == old(self).min_speed,
            final(self).max_speed == old(self).max_speed,
    {
        self.tail_size = match self.tail_size {
            FsmTailSize::Normal(i) => {
                if i == 0 {
                    FsmTailSize::Grow(TAIL_GROW_TICKS)
                } else {
                    FsmTailSize::Normal(i - 1)
                }
            },
            FsmTailSize::Grow(i) => {
                if i == 0 {
                    FsmTailSize::Shrink(TAIL_SHRINK_TICKS)
                } else {
                    FsmTailSize::Grow(i - 1)
                }
            },
            FsmTailSize::Shrink(i) => {
                if i == 0 {
                    FsmTailSize::Normal(TAIL_NORMAL_TICKS)
                } else {
                    FsmTailSize::Shrink(i - 1)
                }
            },
        };
    }

    /// While growing or shrinking, adjust the last two segments' radii by
    /// one pulsation step; at rest, change nothing.
    pub fn tail_size_move(&mut self)
        requires
            old(self).chain.circles@.len() >= 2,
            old(self).chain.params_all_ok(),
        ensures
            final(self).chain.circles@.len() == old(self).chain.circles@.len(),
            forall|m: int|
                0 <= m < old(self).chain.circles@.len() - 2 ==> #[trigger] final(self).chain.circles@[m] == old(self).chain.circles@[m],
            old(self).tail_size is Grow ==> {
                &&& final(self).chain.circles@[old(self).chain.circles@.len() - 1]@
                    == (CircleModel {
                    radius: old(self).chain.circles@[old(self).chain.circles@.len() - 1]@.radius
                        + TAIL_DELTA,
                    ..old(self).chain.circles@[old(self).chain.circles@.len() - 1]@
                })
                &&& final(self).chain.circles@[old(self).chain.circles@.len() - 2]@
                    == (CircleModel {
                    radius: old(self).chain.circles@[old(self).chain.circles@.len() - 2]@.radius
                        + TAIL_DELTA / 2,
                    ..old(self).chain.circles@[old(self).chain.circles@.len() - 2]@
                })
            },
            old(self).tail_size is Shrink ==> {
                &&& final(self).chain.circles@[old(self).chain.circles@.len() - 1]@
                    == (CircleModel {
                    radius: clamped_down(
                        old(self).chain.circles@[old(self).chain.circles@.len() - 1]@.radius
                            - TAIL_DELTA,
                        MIN_TAIL_RADIUS as int,
                    ),
                    ..old(self).chain.circles@[old(self).chain.circles@.len() - 1]@
                })
                &&& final(self).chain.circles@[old(self).chain.circles@.len() - 2]@
                    == (CircleModel {
                    radius: clamped_down(
                        old(self).chain.circles@[old(self).chain.circles@.len() - 2]@.radius
                            - TAIL_DELTA / 2,
                        MIN_TAIL_RADIUS as int,
                    ),
                    ..old(self).chain.circles@[old(self).chain.circles@.len() - 2]@
                })
            },
            old(self).tail_size is Normal ==> final(self).chain.circles@ == old(
                self,
            ).chain.circles@,
            final(self).chain.outlines_lower == old(self).chain.outlines_lower,
            final(self).chain.outlines_upper == old(self).chain.outlines_upper,
            final(self).destination == old(self).destination,
            final(self).speed == old(self).speed,
            final(self).action == old(self).action,
            final(self).tail_size == old(self).tail_size,
            final(self).tail_shake == old(self).tail_shake,
            final(self).cos_vision == old(self).cos_vision,
            final(self).cos_quarter_vision == old(self).cos_quarter_vision,
            final(self).cos_turn == old(self).cos_turn,
            final(self).sin_turn == old(self).sin_turn,
            final(self).min_speed == old(self).min_speed,
            final(self).max_speed == old(self).max_speed,
    {
        match self.tail_size {
            FsmTailSize::Grow(_) => {
                self.chain.grow_tail();
            },
            FsmTailSize::Shrink(_) => {
                self.chain.shrink_tail();
            },
            FsmTailSize::Normal(_) => {},
        }
    }

    /// The tail sway cycle: left, then right, with a fixed dwell.
    pub open spec fn next_tail_shake(t: FsmTailShake) -> FsmTailShake {
        match t {
            FsmTailShake::Left(i) => if i == 0 {
                FsmTailShake::Right(TAIL_SHAKE_TICKS)
            } else {
                FsmTailShake::Left((i - 1) as u32)
            },
            FsmTailShake::Right(i) => if i == 0 {
                FsmTailShake::Left(TAIL_SHAKE_TICKS)
            } else {
                FsmTailShake::Right((i - 1) as u32)
            },
        }
    }

    /// Step the tail sway machine.
    pub fn tail_shake_transition(&mut self)
        ensures
            final(self).tail_shake == Self::next_tail_shake(old(self).tail_shake),
            final(self).chain == old(self).chain,
            final(self).destination == old(self).destination,
            final(self).speed == old(self).speed,
            final(self).action == old(self).action,
            final(self).tail_size == old(self).tail_size,
            final(self).cos_vision == old(self).cos_vision,
            final(self).cos_quarter_vision == old(self).cos_quarter_vision,
            final(self).cos_turn == old(self).cos_turn,
            final(self).sin_turn == old(self).sin_turn,
            final(self).min_speed == old(self).min_speed,
            final(self).max_speed == old(self).max_speed,
    {
        self.tail_shake = match self.tail_shake {
            FsmTailShake::Left(i) => {
                if i == 0 {
                    FsmTailShake::Right(TAIL_SHAKE_TICKS)
                } else {
                    FsmTailShake::Left(i - 1)
                }
            },
            FsmTailShake::Right(i) => {
                if i == 0 {
                    FsmTailShake::Left(TAIL_SHAKE_TICKS)
                } else {
                    FsmTailShake::Right(i - 1)
                }
            },
        };
    }

    /// The sideways nudge the sway machine gives the last segment: a
    /// fraction of its radius, perpendicular to its heading, on the side
    /// selected by the quarter-turn rotor sine `s`.
    pub open spec fn shake_offset(last: CircleModel, s: int) -> Vec2Model {
        last.direction.rotated(0, s).scaled_by(tdiv(last.radius * 400, SCALE as int))
    }

    /// Nudge the last segment sideways, perpendicular to its own heading,
    /// by 0.4 of its radius, to the side the sway machine is on.
    pub fn tail_shake_move(&mut self)
        requires
            old(self).chain.circles@.len() >= 1,
            0 <= old(self).chain.circles@[old(self).chain.circles@.len() - 1]@.radius
                <= RADIUS_LIMIT + TAIL_DELTA,
            old(self).chain.circles@[old(self).chain.circles@.len() - 1]@.position.in_box(
                POS_AFTER as int,
            ),
            old(self).chain.circles@[old(self).chain.circles@.len() - 1]@.direction.in_box(
                2 * SCALE as int,
            ),
        ensures
            final(self).chain.circles@.len() == old(self).chain.circles@.len(),
            forall|m: int|
                0 <= m < old(self).chain.circles@.len() - 1 ==> #[trigger] final(self).chain.circles@[m] == old(self).chain.circles@[m],
            final(self).chain.circles@[old(self).chain.circles@.len() - 1]@.position.in_box(
                POS_AFTER as int + 0x80_0000,
            ),
            final(self).chain.circles@[old(self).chain.circles@.len() - 1]@ == (CircleModel {
                position: old(self).chain.circles@[old(self).chain.circles@.len()
                    - 1]@.position.plus(
                    Self::shake_offset(
                        old(self).chain.circles@[old(self).chain.circles@.len() - 1]@,
                        if old(self).tail_shake is Right {
                            SCALE as int
                        } else {
                            -(SCALE as int)
                        },
                    ),
                ),
                ..old(self).chain.circles@[old(self).chain.circles@.len() - 1]@
            }),
            final(self).chain.outlines_lower == old(self).chain.outlines_lower,
            final(self).chain.outlines_upper == old(self).chain.outlines_upper,
            final(self).destination == old(self).destination,
            final(self).speed == old(self).speed,
            final(self).action == old(self).action,
            final(self).tail_size == old(self).tail_size,
            final(self).tail_shake == old(self).tail_shake,
            final(self).cos_vision == old(self).cos_vision,
            final(self).cos_quarter_vision == old(self).cos_quarter_vision,
            final(self).cos_turn == old(self).cos_turn,
            final(self).sin_turn == old(self).sin_turn,
            final(self).min_speed == old(self).min_speed,
            final(self).max_speed == old(self).max_speed,
    {
        let size: usize = self.chain.circles.len() - 1;
        let mut last: Circle = self.chain.circles[size];
        proof {
            lemma_rotated_in_box(last@.direction, 0, SCALE as int, 2 * SCALE as int);
            lemma_rotated_in_box(last@.direction, 0, -(SCALE as int), 2 * SCALE as int);
            lemma_mul_abs_bound(last@.radius, 400, RADIUS_LIMIT as int + TAIL_DELTA as int, 400);
            lemma_tdiv_in_range(
                last@.radius * 400,
                SCALE as int,
                RADIUS_LIMIT as int + TAIL_DELTA as int,
            );
        }
        let k: i64 = mul_div(last.radius, 400, SCALE);
        let sgn: i64 = match self.tail_shake {
            FsmTailShake::Right(_) => SCALE,
            FsmTailShake::Left(_) => -SCALE,
        };
        let rot: Vec2 = Chain::rotate_vector(&last.direction, 0, sgn);
        proof {
            lemma_mul_abs_bound(
                rot@.x,
                k as int,
                4 * SCALE as int,
                RADIUS_LIMIT as int + TAIL_DELTA as int,
            );
            lemma_mul_abs_bound(
                rot@.y,
                k as int,
                4 * SCALE as int,
                RADIUS_LIMIT as int + TAIL_DELTA as int,
            );
            lemma_tdiv_in_range(rot@.x * k, SCALE as int, 0x80_0000);
            lemma_tdiv_in_range(rot@.y * k, SCALE as int, 0x80_0000);
        }
        let off: Vec2 = rot.scaled_by(k);
        last.position = last.position.plus(&off);
        self.chain.circles[size] = last;
    }



    /// One fast-forward step: apply the transition table once and, on
    /// entry to the re-targeting state, replace the destination by the
    /// drawn point `d`.
    pub open spec fn stepped(self, d: Vec2) -> Snake {
        let s1 = Snake { action: self.next_action(), ..self };
        if s1.action is Target {
            Snake { destination: d, ..s1 }
        } else {
            s1
        }
    }

    /// The state in which the fast-forward settles: step until the action
    /// is stable.
    pub open spec fn settled(self, d: Vec2) -> Snake
        decreases self.action.rank(),
    {
        if !self.action.is_transient() {
            self
        } else {
            self.stepped(d).settled(d)
        }
    }

    /// The agent as one tick's fast-forward leaves it, before the final
    /// movement effect: one unconditional transition, then steps until
    /// stable.  Only the action and (on a re-targeting tick) the
    /// destination differ from `self`.
    pub open spec fn resolved(self, d: Vec2) -> Snake {
        self.stepped(d).settled(d)
    }

    /// Whether the remaining fast-forward, starting by stepping `self`,
    /// passes the re-targeting state.
    pub open spec fn onward_retargets(self) -> bool
        decreases self.action.rank(),
    {
        if !self.action.is_transient() {
            false
        } else {
            self.next_action() is Target || (Snake {
                action: self.next_action(),
                ..self
            }).onward_retargets()
        }
    }

    /// Whether one tick from `self` passes the re-targeting state and so
    /// draws a fresh destination.  This is decided by the old state alone:
    /// the destination can change only at the re-targeting state itself,
    /// and every guard on the way there reads the old destination.
    pub open spec fn tick_retargets(self) -> bool {
        self.next_action() is Target || (Snake {
            action: self.next_action(),
            ..self
        }).onward_retargets()
    }

    /// The last two segments' radii after one step of the pulsation
    /// machine in state `t` (the state `tail_size_move` matches on).
    pub open spec fn tail_sized(s: Seq<CircleModel>, t: FsmTailSize) -> Seq<CircleModel> {
        if s.len() < 2 {
            s
        } else {
            match t {
                FsmTailSize::Grow(_) => s.update(
                    s.len() - 1,
                    CircleModel { radius: s[s.len() - 1].radius + TAIL_DELTA, ..s[s.len() - 1] },
                ).update(
                    s.len() - 2,
                    CircleModel {
                        radius: s[s.len() - 2].radius + TAIL_DELTA / 2,
                        ..s[s.len() - 2]
                    },
                ),
                FsmTailSize::Shrink(_) => s.update(
                    s.len() - 1,
                    CircleModel {
                        radius: clamped_down(
                            s[s.len() - 1].radius - TAIL_DELTA,
                            MIN_TAIL_RADIUS as int,
                        ),
                        ..s[s.len() - 1]
                    },
                ).update(
                    s.len() - 2,
                    CircleModel {
                        radius: clamped_down(
                            s[s.len() - 2].radius - TAIL_DELTA / 2,
                            MIN_TAIL_RADIUS as int,
                        ),
                        ..s[s.len() - 2]
                    },
                ),
                FsmTailSize::Normal(_) => s,
            }
        }
    }

    /// The last segment's position after one step of the sway machine in
    /// state `t` (the state `tail_shake_move` matches on).
    pub open spec fn tail_shaken(s: Seq<CircleModel>, t: FsmTailShake) -> Seq<CircleModel> {
        if s.len() < 1 {
            s
        } else {
            let last = s[s.len() - 1];
            let sgn: int = if t is Right {
                SCALE as int
            } else {
                -(SCALE as int)
            };
            s.update(
                s.len() - 1,
                CircleModel { position: last.position.plus(Self::shake_offset(last, sgn)), ..last },
            )
        }
    }

    /// The segment models at the end of one tick from `self` with the
    /// drawn destination `d`: the settled state's movement effect on the
    /// head, the head normalized and advanced by the new speed, the body
    /// propagated about the head, and one step of each tail machine.
    pub open spec fn tick_models(self, d: Vec2) -> Seq<CircleModel> {
        let r = self.resolved(d);
        let moved = r.head_after_move();
        let nd = moved.direction.normalized();
        let advanced = CircleModel {
            direction: nd,
            position: moved.position.plus(nd.scaled_by(r.speed_after_move())),
            ..moved
        };
        let propagated = prop_up(prop_down(self.chain.models().update(0, advanced), -1), 1);
        Self::tail_shaken(
            Self::tail_sized(propagated, Self::next_tail_size(self.tail_size)),
            Self::next_tail_shake(self.tail_shake),
        )
    }

    /// What one tick does, as a relation between the state before
    /// (`self`), the state after (`post`), and the destination `d` that
    /// was drawn for it: the steering machine settles by its transition
    /// table, the settled state's movement and speed effects apply, the
    /// head advances, the body propagates, and the tail machines step.
    /// `d` matters only on a re-targeting tick.
    pub open spec fn tick_relation(self, post: Snake, d: Vec2) -> bool {
        &&& post.action == self.resolved(d).action
        &&& post.destination == self.resolved(d).destination
        &&& post.speed == self.resolved(d).speed_after_move()
        &&& post.chain.models() == self.tick_models(d)
    }

    /// Stepping to a stable state changes the destination exactly when the
    /// re-targeting state is passed on the way, in which case the drawn
    /// point is adopted.
    pub proof fn lemma_settled_destination(self, d: Vec2)
        ensures
            self.onward_retargets() ==> self.settled(d).destination == d,
            !self.onward_retargets() ==> self.settled(d).destination == self.destination,
        decreases self.action.rank(),
    {
        if self.action.is_transient() {
            let next = self.stepped(d);
            next.lemma_settled_destination(d);
        }
    }

    /// One tick's fast-forward leaves the destination unchanged unless the
    /// tick re-targets, and then it is exactly the drawn point.
    pub proof fn lemma_resolved_destination(self, d: Vec2)
        ensures
            self.tick_retargets() ==> self.resolved(d).destination == d,
            !self.tick_retargets() ==> self.resolved(d).destination == self.destination,
    {
        self.stepped(d).lemma_settled_destination(d);
    }

    /// The per-tick fast-forward always halts: from a transient state the
    /// transition table strictly decreases the state's rank, so at most
    /// five transitions separate any state from a stable one.
    pub proof fn lemma_transition_terminates(self)
        requires
            self.action.is_transient(),
        ensures
            self.next_action().rank() < self.action.rank(),
    {
    }

    /// Test everything one tick requires; callers check this before
    /// `update`.
    pub fn ready_for_tick(&self) -> (r: bool)
        ensures
            r == self.tick_ready(),
    {
        let n: usize = self.chain.circles.len();
        if n < 2 || n > MAX_SEGMENTS {
            return false;
        }
        if self.chain.outlines_lower.len() != n || self.chain.outlines_upper.len() != n {
            return false;
        }
        if self.cos_vision < -SCALE || self.cos_vision > SCALE {
            return false;
        }
        if self.cos_quarter_vision < -SCALE || self.cos_quarter_vision > SCALE {
            return false;
        }
        if self.cos_turn < -SCALE || self.cos_turn > SCALE {
            return false;
        }
        if self.sin_turn <= 0 || self.sin_turn > SCALE {
            return false;
        }
        if self.min_speed < 0 || self.min_speed > self.max_speed || self.max_speed > SPEED_LIMIT {
            return false;
        }
        if self.speed < self.min_speed || self.speed > self.max_speed {
            return false;
        }
        if self.destination.x < -POS_TICK || self.destination.x > POS_TICK {
            return false;
        }
        if self.destination.y < -POS_TICK || self.destination.y > POS_TICK {
            return false;
        }
        let head: Circle = self.chain.circles[0];
        if head.direction.x < -2 * SCALE || head.direction.x > 2 * SCALE {
            return false;
        }
        if head.direction.y < -2 * SCALE || head.direction.y > 2 * SCALE {
            return false;
        }
        let mut i: usize = 0;
        while i < n
            invariant
                i <= n,
                n == self.chain.circles@.len(),
                forall|m: int| 0 <= m < i ==> (#[trigger] self.chain.circles@[m])@.params_ok(),
                forall|m: int|
                    0 <= m < i ==> (#[trigger] self.chain.circles@[m])@.position.in_box(
                        POS_TICK as int,
                    ),
            decreases n - i,
        {
            let c: Circle = self.chain.circles[i];
            if c.radius <= 0 || c.radius > RADIUS_LIMIT {
                return false;
            }
            if c.offset < -RADIUS_LIMIT || c.offset > RADIUS_LIMIT {
                return false;
            }
            if c.position.x < -POS_TICK || c.position.x > POS_TICK {
                return false;
            }
            if c.position.y < -POS_TICK || c.position.y > POS_TICK {
                return false;
            }
            i = i + 1;
        }
        true
    }

    /// Replace the destination by the drawn point when the machine is in
    /// the re-targeting state; the deterministic core of `extra_action`.
    fn retarget(&mut self, draw: Vec2)
        ensures
            old(self).action is Target ==> *final(self) == (Snake {
                destination: draw,
                ..*old(self)
            }),
            !(old(self).action is Target) ==> *final(self) == *old(self),
    {
        match self.action {
            FsmAction::Target => {
                self.destination = draw;
            },
            _ => {},
        }
    }

    /// One simulation tick with the tick's candidate destination supplied
    /// by the caller, used only if the tick re-targets.  Fully
    /// deterministic: the whole outcome is pinned by `tick_relation`.
    /// A caller that supplies draws from its own seeded source gets a
    /// reproducible simulation.
    pub fn update_with(&mut self, draw_x: i64, draw_y: i64)
        requires
            old(self).tick_ready(),
            -DEST_X_RANGE <= draw_x < DEST_X_RANGE,
            -DEST_Y_RANGE <= draw_y < DEST_Y_RANGE,
        ensures
            old(self).tick_relation(*final(self), Vec2 { x: draw_x, y: draw_y }),
            final(self).chain.circles@.len() == old(self).chain.circles@.len(),
            !final(self).action.is_transient(),
            final(self).wf(),
            old(self).min_speed <= final(self).speed <= old(self).max_speed,
            final(self).chain.positions_in_box(POS_AFTER as int + 0x80_0000),
            final(self).destination@.in_box(POS_TICK as int),
            final(self).head().direction.in_box(SCALE as int),
            final(self).cos_vision == old(self).cos_vision,
            final(self).cos_quarter_vision == old(self).cos_quarter_vision,
            final(self).cos_turn == old(self).cos_turn,
            final(self).sin_turn == old(self).sin_turn,
            final(self).min_speed == old(self).min_speed,
            final(self).max_speed == old(self).max_speed,
            final(self).tail_size == Self::next_tail_size(old(self).tail_size),
            final(self).tail_shake == Self::next_tail_shake(old(self).tail_shake),
            final(self).chain.outlines_lower == old(self).chain.outlines_lower,
            final(self).chain.outlines_upper == old(self).chain.outlines_upper,
    {
        let ghost n0: int = old(self).chain.circles@.len() as int;
        let draw: Vec2 = Vec2 { x: draw_x, y: draw_y };
        self.transition();
        self.retarget(draw);
        proof {
            assert((Snake {
                action: self.action,
                destination: self.destination,
                ..*old(self)
            }) == old(self).stepped(draw));
        }
        let ghost pre_dir0: Vec2Model = self.chain.circles@[0]@.direction;
        let ghost at_move0: Snake = *self;
        self.move_action();
        proof {
            lemma_rotated_in_box(
                pre_dir0,
                old(self).cos_turn as int,
                -(old(self).sin_turn as int),
                0x3000_0000,
            );
            lemma_rotated_in_box(
                pre_dir0,
                old(self).cos_turn as int,
                old(self).sin_turn as int,
                0x3000_0000,
            );
            assert(at_move0 == (Snake {
                action: self.action,
                destination: self.destination,
                ..*old(self)
            }));
        }
        while self.action.is_temporary()
            invariant
                self.wf(),
                self.chain.circles@.len() == n0,
                self.chain.params_all_ok(),
                old(self).resolved(draw) == (Snake {
                    action: self.action,
                    destination: self.destination,
                    ..*old(self)
                }).settled(draw),
                self.action.is_transient() ==> self.chain == old(self).chain,
                self.action.is_transient() ==> self.speed == old(self).speed,
                forall|m: int|
                    0 < m < n0 ==> #[trigger] self.chain.circles@[m] == old(self).chain.circles@[m],
                !self.action.is_transient() ==> self.chain.circles@[0]@ == (Snake {
                    action: self.action,
                    destination: self.destination,
                    ..*old(self)
                }).head_after_move(),
                !self.action.is_transient() ==> self.speed == (Snake {
                    action: self.action,
                    destination: self.destination,
                    ..*old(self)
                }).speed_after_move(),
                forall|m: int|
                    0 <= m < n0 ==> (#[trigger] self.chain.circles@[m])@.position == old(
                        self,
                    ).chain.circles@[m]@.position,
                forall|m: int|
                    0 <= m < n0 ==> (#[trigger] self.chain.circles@[m])@.radius == old(
                        self,
                    ).chain.circles@[m]@.radius,
                forall|m: int|
                    0 <= m < n0 ==> (#[trigger] self.chain.circles@[m])@.offset == old(
                        self,
                    ).chain.circles@[m]@.offset,
                old(self).tick_ready(),
                -DEST_X_RANGE <= draw.x < DEST_X_RANGE,
                -DEST_Y_RANGE <= draw.y < DEST_Y_RANGE,
                self.destination@.in_box(POS_TICK as int),
                self.chain.circles@[0]@.direction.in_box(0x6000_0000),
                self.action.is_transient() ==> self.chain.circles@[0]@.direction == old(
                    self,
                ).chain.circles@[0]@.direction,
                self.tail_size == old(self).tail_size,
                self.tail_shake == old(self).tail_shake,
                self.cos_vision == old(self).cos_vision,
                self.cos_quarter_vision == old(self).cos_quarter_vision,
                self.cos_turn == old(self).cos_turn,
                self.sin_turn == old(self).sin_turn,
                self.min_speed == old(self).min_speed,
                self.max_speed == old(self).max_speed,
                self.chain.outlines_lower == old(self).chain.outlines_lower,
                self.chain.outlines_upper == old(self).chain.outlines_upper,
            decreases self.action.rank(),
        {
            let ghost before: Snake = *self;
            self.transition();
            self.retarget(draw);
            proof {
                let cur_before = Snake {
                    action: before.action,
                    destination: before.destination,
                    ..*old(self)
                };
                let cur_now = Snake {
                    action: self.action,
                    destination: self.destination,
                    ..*old(self)
                };
                assert(before.next_action() == cur_before.next_action());
                assert(cur_now == cur_before.stepped(draw));
                assert(cur_before.settled(draw) == cur_now.settled(draw));
            }
            let ghost pre_dir: Vec2Model = self.chain.circles@[0]@.direction;
            let ghost at_move: Snake = *self;
            self.move_action();
            proof {
                lemma_rotated_in_box(
                    pre_dir,
                    old(self).cos_turn as int,
                    -(old(self).sin_turn as int),
                    0x3000_0000,
                );
                lemma_rotated_in_box(
                    pre_dir,
                    old(self).cos_turn as int,
                    old(self).sin_turn as int,
                    0x3000_0000,
                );
                assert(at_move == (Snake {
                    action: self.action,
                    destination: self.destination,
                    ..*old(self)
                }));
            }
        }
        let ghost r: Snake = old(self).resolved(draw);
        proof {
            assert(r == (Snake {
                action: self.action,
                destination: self.destination,
                ..*old(self)
            }));
            assert(r.head_after_move() == (Snake {
                action: self.action,
                destination: self.destination,
                ..*old(self)
            }).head_after_move());
        }
        let mut head: Circle = self.chain.circles[0];
        let ghost d: Vec2Model = head@.direction;
        head.normalize_direction();
        proof {
            crate::vec2::lemma_normalized_in_box(d);
            assert(d.norm_sq() >= 0) by (nonlinear_arith);
            if d.norm_sq() == 0 {
                assert(d.x == 0 && d.y == 0) by (nonlinear_arith)
                    requires
                        d.x * d.x + d.y * d.y == 0,
                ;
            }
            lemma_mul_abs_bound(head@.direction.x, self.speed as int, SCALE as int, SPEED_LIMIT as int);
            lemma_mul_abs_bound(head@.direction.y, self.speed as int, SCALE as int, SPEED_LIMIT as int);
            lemma_tdiv_in_range(head@.direction.x * self.speed, SCALE as int, SPEED_LIMIT as int);
            lemma_tdiv_in_range(head@.direction.y * self.speed, SCALE as int, SPEED_LIMIT as int);
        }
        let step: Vec2 = head.direction.scaled_by(self.speed);
        head.position = head.position.plus(&step);
        self.chain.circles[0] = head;
        proof {
            assert forall|m: int| 0 <= m < n0 implies (#[trigger] self.chain.circles@[m])@.position.in_box(
                POS_LIMIT as int,
            ) by {
                if m != 0 {
                    assert(self.chain.circles@[m]@.position == old(self).chain.circles@[m]@.position);
                }
            }
            assert(self.chain.models() =~= old(self).chain.models().update(
                0,
                self.chain.circles@[0]@,
            ));
        }
        let ghost advanced: CircleModel = self.chain.circles@[0]@;
        self.chain.update_positions(0);
        let ghost propagated: Seq<CircleModel> = self.chain.models();
        self.tail_size_transition();
        self.tail_size_move();
        proof {
            assert(self.chain.models() =~= Self::tail_sized(
                propagated,
                Self::next_tail_size(old(self).tail_size),
            ));
        }
        let ghost sized: Seq<CircleModel> = self.chain.models();
        self.tail_shake_transition();
        self.tail_shake_move();
        proof {
            assert(self.chain.models() =~= Self::tail_shaken(
                sized,
                Self::next_tail_shake(old(self).tail_shake),
            ));
            let moved = r.head_after_move();
            let nd = moved.direction.normalized();
            assert(advanced == (CircleModel {
                direction: nd,
                position: moved.position.plus(nd.scaled_by(r.speed_after_move())),
                ..moved
            }));
            assert(propagated == prop_up(
                prop_down(old(self).chain.models().update(0, advanced), -1),
                1,
            ));
            assert(self.chain.models() == old(self).tick_models(draw));
            assert forall|m: int| 0 <= m < n0 implies (#[trigger] self.chain.circles@[m])@.position.in_box(
                POS_AFTER as int + 0x80_0000,
            ) by {
            }
        }
    }

    /// One simulation tick.  The steering machine is stepped, together
    /// with its extra and movement effects, until it settles in a stable
    /// state; the head's heading is then normalized and its position
    /// advanced by the current speed; the body is propagated from the
    /// head; and the two tail machines each take a step.  The candidate
    /// destination is drawn from the thread-local random source, so the
    /// outcome is pinned up to the one draw; `update_with` is the
    /// deterministic, seedable form.
    pub fn update(&mut self)
        requires
            old(self).tick_ready(),
        ensures
            exists|dr: Vec2|
                {
                    &&& -DEST_X_RANGE <= dr.x < DEST_X_RANGE
                    &&& -DEST_Y_RANGE <= dr.y < DEST_Y_RANGE
                    &&& old(self).tick_relation(*final(self), dr)
                },
            final(self).chain.circles@.len() == old(self).chain.circles@.len(),
            !final(self).action.is_transient(),
            final(self).wf(),
            old(self).min_speed <= final(self).speed <= old(self).max_speed,
            final(self).chain.positions_in_box(POS_AFTER as int + 0x80_0000),
            final(self).destination@.in_box(POS_TICK as int),
            final(self).head().direction.in_box(SCALE as int),
            final(self).cos_vision == old(self).cos_vision,
            final(self).cos_quarter_vision == old(self).cos_quarter_vision,
            final(self).cos_turn == old(self).cos_turn,
            final(self).sin_turn == old(self).sin_turn,
            final(self).min_speed == old(self).min_speed,
            final(self).max_speed == old(self).max_speed,
            final(self).tail_size == Self::next_tail_size(old(self).tail_size),
            final(self).tail_shake == Self::next_tail_shake(old(self).tail_shake),
    {
        let draw_x: i64 = random_in_range(-DEST_X_RANGE, DEST_X_RANGE);
        let draw_y: i64 = random_in_range(-DEST_Y_RANGE, DEST_Y_RANGE);
        self.update_with(draw_x, draw_y);
        proof {
            let dr = Vec2 { x: draw_x, y: draw_y };
            assert(-DEST_X_RANGE <= dr.x < DEST_X_RANGE && -DEST_Y_RANGE <= dr.y < DEST_Y_RANGE
                && old(self).tick_relation(*self, dr));
        }
    }


    /// Build an agent from a configuration: the chain is built, propagated
    /// once about the head, and the destination starts at the head's own
    /// position (so the first tick re-draws it).  Fails with
    /// `InvalidConfiguration` exactly when the configuration is invalid.
    pub fn new(cfg: &SnakeConfig) -> (r: Result<Snake, ChainError>)
        ensures
            r is Ok <==> cfg.valid(),
            r matches Ok(s) ==> {
                &&& s.wf()
                &&& s.chain.circles@.len() == cfg.chain.radii@.len()
                &&& s.chain.models() == prop_up(
                    prop_down(crate::chain::initial_models(cfg.chain), -1),
                    1,
                )
                &&& s.chain.params_all_ok()
                &&& s.chain.positions_in_box(POS_AFTER as int)
                &&& s.chain.outline_wf()
                &&& s.destination@ == s.chain.circles@[0]@.position
                &&& s.action == FsmAction::Reach
                &&& s.tail_size == FsmTailSize::Normal(TAIL_NORMAL_TICKS)
                &&& s.tail_shake == FsmTailShake::Left(TAIL_SHAKE_INITIAL_TICKS)
                &&& s.cos_vision == cfg.cos_vision
                &&& s.cos_quarter_vision == cfg.cos_quarter_vision
                &&& s.cos_turn == cfg.cos_turn
                &&& s.sin_turn == cfg.sin_turn
                &&& s.speed == cfg.speed
                &&& s.min_speed == cfg.min_speed
                &&& s.max_speed == cfg.max_speed
            },
            r matches Err(e) ==> e == ChainError::InvalidConfiguration,
    {
        if cfg.cos_vision < -SCALE || cfg.cos_vision > SCALE {
            return Err(ChainError::InvalidConfiguration);
        }
        if cfg.cos_quarter_vision < -SCALE || cfg.cos_quarter_vision > SCALE {
            return Err(ChainError::InvalidConfiguration);
        }
        if cfg.cos_turn < -SCALE || cfg.cos_turn > SCALE {
            return Err(ChainError::InvalidConfiguration);
        }
        if cfg.sin_turn <= 0 || cfg.sin_turn > SCALE {
            return Err(ChainError::InvalidConfiguration);
        }
        if cfg.min_speed < 0 || cfg.min_speed > cfg.speed || cfg.speed > cfg.max_speed
            || cfg.max_speed > SPEED_LIMIT {
            return Err(ChainError::InvalidConfiguration);
        }
        let chain_or_err: Result<Chain, ChainError> = Chain::new(&cfg.chain);
        match chain_or_err {
            Err(e) => Err(e),
            Ok(mut chain) => {
                chain.update_positions(0);
                let destination: Vec2 = chain.circles[0].position;
                Ok(
                    Snake {
                        chain,
                        destination,
                        cos_vision: cfg.cos_vision,
                        cos_quarter_vision: cfg.cos_quarter_vision,
                        speed: cfg.speed,
                        min_speed: cfg.min_speed,
                        max_speed: cfg.max_speed,
                        action: FsmAction::Reach,
                        tail_size: FsmTailSize::Normal(TAIL_NORMAL_TICKS),
                        tail_shake: FsmTailShake::Left(TAIL_SHAKE_INITIAL_TICKS),
                        cos_turn: cfg.cos_turn,
                        sin_turn: cfg.sin_turn,
                    },
                )
            },
        }
    }

    /// The two "eye" surface points on the second segment, at the angular
    /// offset whose rotor is `(eye_cos, eye_sin)` on either side of the
    /// segment's heading, at 0.9 of its radius.
    pub fn eyes_path(&self, eye_cos: i64, eye_sin: i64) -> (r: (Vec2, Vec2))
        requires
            self.chain.circles@.len() >= 2,
            self.chain.params_all_ok(),
            self.chain.circles@[1]@.position.in_box(POS_AFTER as int),
            self.chain.circles@[1]@.direction.in_box(2 * SCALE as int),
            -SCALE <= eye_cos <= SCALE,
            -SCALE <= eye_sin <= SCALE,
        ensures
            r.0@ == self.chain.circles@[1]@.position.plus(
                self.chain.circles@[1]@.direction.rotated(
                    eye_cos as int,
                    -(eye_sin as int),
                ).scaled_by(tdiv(self.chain.circles@[1]@.radius * 900, SCALE as int)),
            ),
            r.1@ == self.chain.circles@[1]@.position.plus(
                self.chain.circles@[1]@.direction.rotated(
                    eye_cos as int,
                    eye_sin as int,
                ).scaled_by(tdiv(self.chain.circles@[1]@.radius * 900, SCALE as int)),
            ),
    {
        let c: Circle = self.chain.circles[1];
        proof {
            lemma_rotated_in_box(c@.direction, eye_cos as int, -(eye_sin as int), 2 * SCALE as int);
            lemma_rotated_in_box(c@.direction, eye_cos as int, eye_sin as int, 2 * SCALE as int);
            lemma_mul_abs_bound(c@.radius, 900, RADIUS_LIMIT as int, 900);
            lemma_tdiv_in_range(c@.radius * 900, SCALE as int, RADIUS_LIMIT as int);
        }
        let k: i64 = mul_div(c.radius, 900, SCALE);
        let rot_a: Vec2 = Chain::rotate_vector(&c.direction, eye_cos, -eye_sin);
        let rot_b: Vec2 = Chain::rotate_vector(&c.direction, eye_cos, eye_sin);
        proof {
            lemma_mul_abs_bound(rot_a@.x, k as int, 4 * SCALE as int, RADIUS_LIMIT as int);
            lemma_mul_abs_bound(rot_a@.y, k as int, 4 * SCALE as int, RADIUS_LIMIT as int);
            lemma_mul_abs_bound(rot_b@.x, k as int, 4 * SCALE as int, RADIUS_LIMIT as int);
            lemma_mul_abs_bound(rot_b@.y, k as int, 4 * SCALE as int, RADIUS_LIMIT as int);
            lemma_tdiv_in_range(rot_a@.x * k, SCALE as int, 0x80_0000);
            lemma_tdiv_in_range(rot_a@.y * k, SCALE as int, 0x80_0000);
            lemma_tdiv_in_range(rot_b@.x * k, SCALE as int, 0x80_0000);
            lemma_tdiv_in_range(rot_b@.y * k, SCALE as int, 0x80_0000);
        }
        let eye_a: Vec2 = c.position.plus(&rot_a.scaled_by(k));
        let eye_b: Vec2 = c.position.plus(&rot_b.scaled_by(k));
        (eye_a, eye_b)
    }

    /// The slender preset: a head of three larger segments and a long,
    /// tapering tail, scattered vertically at random, with a refined
    /// outline on the head and tail tip.
    pub fn slick_chain() -> (r: SnakeConfig)
        ensures
            r.valid(),
            r.chain.radii@.len() == 53,
            r.chain.offsets@.len() == 53,
            r.chain.positions@.len() == 53,
            r.chain.outline@.len() == 53,
            forall|m: int|
                0 <= m < 53 ==> #[trigger] r.chain.radii@[m] == (if m == 0 {
                    30_000int
                } else if m == 1 {
                    35_000int
                } else if m == 2 {
                    28_000int
                } else {
                    28_000 - 500 * (m - 3)
                }),
            forall|m: int|
                0 <= m < 53 ==> #[trigger] r.chain.offsets@[m] == (if m == 2 || m >= 13 {
                    10_000int
                } else {
                    0int
                }),
            forall|m: int|
                0 <= m < 53 ==> ((#[trigger] r.chain.positions@[m]).0 matches Some(x) && x == m
                    * r.chain.radii@[m] * 10 + 800_000),
            forall|m: int|
                0 <= m < 53 ==> ((#[trigger] r.chain.positions@[m]).1 matches Some(y)
                    && -DEST_Y_RANGE <= y < DEST_Y_RANGE),
            r.chain.outline@[0]@ == seq![75i64, 100i64, 250i64, -250i64, -100i64, -75i64],
            r.chain.outline@[1]@ == seq![250i64, 300i64, -300i64, -250i64],
            r.chain.outline@[2]@ == seq![225i64, 250i64, -250i64, -225i64],
            forall|m: int| 3 <= m < 52 ==> (#[trigger] r.chain.outline@[m])@.len() == 0,
            r.chain.outline@[52]@ == seq![250i64, 400i64, 500i64, -400i64, -250i64],
            r.cos_vision == 866,
            r.cos_quarter_vision == 991,
            r.cos_turn == 999,
            r.sin_turn == 31,
            r.speed == 3_000,
            r.min_speed == 3_000,
            r.max_speed == 12_000,
    {
        let mut radii: Vec<i64> = Vec::new();
        radii.push(30_000);
        radii.push(35_000);
        radii.push(28_000);
        let mut i: usize = 0;
        while i < 50
            invariant
                i <= 50,
                radii@.len() == 3 + i,
                radii@[0] == 30_000,
                radii@[1] == 35_000,
                radii@[2] == 28_000,
                forall|m: int| 0 <= m < i ==> #[trigger] radii@[3 + m] == 28_000 - 500 * m,
                forall|m: int| 0 <= m < radii@.len() ==> 0 < #[trigger] radii@[m] <= 35_000,
            decreases 50 - i,
        {
            radii.push(28_000 - 500 * (i as i64));
            i = i + 1;
        }
        let mut offsets: Vec<i64> = Vec::new();
        offsets.push(0);
        offsets.push(0);
        offsets.push(10_000);
        let mut j: usize = 0;
        while j < 10
            invariant
                j <= 10,
                offsets@.len() == 3 + j,
                forall|m: int|
                    0 <= m < offsets@.len() ==> #[trigger] offsets@[m] == (if m == 2 {
                        10_000int
                    } else {
                        0int
                    }),
            decreases 10 - j,
        {
            offsets.push(0);
            j = j + 1;
        }
        let mut j2: usize = 0;
        while j2 < 40
            invariant
                j2 <= 40,
                offsets@.len() == 13 + j2,
                forall|m: int|
                    0 <= m < offsets@.len() ==> #[trigger] offsets@[m] == (if m == 2 || m >= 13 {
                        10_000int
                    } else {
                        0int
                    }),
            decreases 40 - j2,
        {
            offsets.push(10_000);
            j2 = j2 + 1;
        }
        proof {
            assert forall|m: int| 0 <= m < radii@.len() implies m * #[trigger] radii@[m] * 10
                + 800_000 <= POS_LIMIT by {
                lemma_mul_abs_bound(m, radii@[m] as int, 52, 35_000);
                lemma_mul_abs_bound(m * radii@[m], 10, 1_820_000, 10);
            }
        }
        let positions: Vec<(Option<i64>, Option<i64>)> = Self::scatter_positions(&radii, 10, 800_000);
        let mut outline: Vec<Vec<i64>> = Vec::new();
        proof {
            assert forall|m: int| 3 <= m < 53 implies radii@[m] == 28_000 - 500 * (m - 3) by {
                assert(radii@[3 + (m - 3)] == 28_000 - 500 * (m - 3));
            }
        }
        let mut head0: Vec<i64> = Vec::new();
        head0.push(75);
        head0.push(100);
        head0.push(250);
        head0.push(-250);
        head0.push(-100);
        head0.push(-75);
        outline.push(head0);
        let mut head1: Vec<i64> = Vec::new();
        head1.push(250);
        head1.push(300);
        head1.push(-300);
        head1.push(-250);
        outline.push(head1);
        let mut head2: Vec<i64> = Vec::new();
        head2.push(225);
        head2.push(250);
        head2.push(-250);
        head2.push(-225);
        outline.push(head2);
        proof {
            assert(outline@[0]@ =~= seq![75i64, 100i64, 250i64, -250i64, -100i64, -75i64]);
            assert(outline@[1]@ =~= seq![250i64, 300i64, -300i64, -250i64]);
            assert(outline@[2]@ =~= seq![225i64, 250i64, -250i64, -225i64]);
        }
        let mut b: usize = 0;
        while b < 49
            invariant
                b <= 49,
                outline@.len() == 3 + b,
                outline@[0]@ == seq![75i64, 100i64, 250i64, -250i64, -100i64, -75i64],
                outline@[1]@ == seq![250i64, 300i64, -300i64, -250i64],
                outline@[2]@ == seq![225i64, 250i64, -250i64, -225i64],
                forall|m: int| 3 <= m < outline@.len() ==> (#[trigger] outline@[m])@.len() == 0,
                forall|m: int, jj: int|
                    0 <= m < outline@.len() && 0 <= jj < outline@[m]@.len()
                        ==> #[trigger] outline@[m]@[jj] > i64::MIN,
            decreases 49 - b,
        {
            let empty: Vec<i64> = Vec::new();
            outline.push(empty);
            b = b + 1;
        }
        let mut tip: Vec<i64> = Vec::new();
        tip.push(250);
        tip.push(400);
        tip.push(500);
        tip.push(-400);
        tip.push(-250);
        proof {
            assert(tip@ =~= seq![250i64, 400i64, 500i64, -400i64, -250i64]);
        }
        outline.push(tip);
        SnakeConfig {
            chain: ChainConfig { radii, offsets, positions, outline },
            cos_vision: 866,
            cos_quarter_vision: 991,
            cos_turn: 999,
            sin_turn: 31,
            min_speed: 3_000,
            max_speed: 12_000,
            speed: 3_000,
        }
    }

    /// The stout preset: a few large segments with assorted offsets and the
    /// default outline.
    pub fn chunky_chain() -> (r: SnakeConfig)
        ensures
            r.valid(),
            r.chain.radii@ == seq![30_000i64, 48_000i64, 70_000i64, 60_500i64, 40_000i64, 30_500i64, 20_000i64, 20_000i64, 25_500i64],
            r.chain.offsets@ == seq![0i64, 0i64, 13_000i64, -20_200i64, -10_000i64, -10_000i64, 15_000i64, 30_000i64, 0i64],
            r.chain.positions@.len() == 9,
            forall|m: int|
                0 <= m < 9 ==> ((#[trigger] r.chain.positions@[m]).0 matches Some(x) && x == m
                    * r.chain.radii@[m] * 3 + 100_000),
            forall|m: int|
                0 <= m < 9 ==> ((#[trigger] r.chain.positions@[m]).1 matches Some(y)
                    && -DEST_Y_RANGE <= y < DEST_Y_RANGE),
            r.chain.outline@.len() == 0,
            r.cos_vision == 866,
            r.cos_quarter_vision == 991,
            r.cos_turn == 999,
            r.sin_turn == 31,
            r.speed == 3_000,
            r.min_speed == 3_000,
            r.max_speed == 12_000,
    {
        let mut radii: Vec<i64> = Vec::new();
        radii.push(30_000);
        radii.push(48_000);
        radii.push(70_000);
        radii.push(60_500);
        radii.push(40_000);
        radii.push(30_500);
        radii.push(20_000);
        radii.push(20_000);
        radii.push(25_500);
        let mut offsets: Vec<i64> = Vec::new();
        offsets.push(0);
        offsets.push(0);
        offsets.push(13_000);
        offsets.push(-20_200);
        offsets.push(-10_000);
        offsets.push(-10_000);
        offsets.push(15_000);
        offsets.push(30_000);
        offsets.push(0);
        proof {
            assert(radii@ =~= seq![30_000i64, 48_000i64, 70_000i64, 60_500i64, 40_000i64, 30_500i64, 20_000i64, 20_000i64, 25_500i64]);
            assert(offsets@ =~= seq![0i64, 0i64, 13_000i64, -20_200i64, -10_000i64, -10_000i64, 15_000i64, 30_000i64, 0i64]);
            assert forall|m: int| 0 <= m < radii@.len() implies m * #[trigger] radii@[m] * 3
                + 100_000 <= POS_LIMIT by {
                lemma_mul_abs_bound(m, radii@[m] as int, 8, 70_000);
                lemma_mul_abs_bound(m * radii@[m], 3, 560_000, 3);
            }
        }
        let positions: Vec<(Option<i64>, Option<i64>)> = Self::scatter_positions(&radii, 3, 100_000);
        let outline: Vec<Vec<i64>> = Vec::new();
        SnakeConfig {
            chain: ChainConfig { radii, offsets, positions, outline },
            cos_vision: 866,
            cos_quarter_vision: 991,
            cos_turn: 999,
            sin_turn: 31,
            min_speed: 3_000,
            max_speed: 12_000,
            speed: 3_000,
        }
    }

    /// Initial scatter: segment `i` starts at `x = i · radius · spread +
    /// base` with a vertical coordinate drawn at random from the
    /// destination rectangle's height.
    pub fn scatter_positions(radii: &Vec<i64>, spread: i64, base: i64) -> (r: Vec<
        (Option<i64>, Option<i64>),
    >)
        requires
            radii@.len() <= MAX_SEGMENTS,
            0 < spread <= 16,
            0 <= base <= 0x100_0000,
            forall|m: int| 0 <= m < radii@.len() ==> 0 < #[trigger] radii@[m] <= RADIUS_LIMIT,
            forall|m: int|
                0 <= m < radii@.len() ==> m * #[trigger] radii@[m] * spread + base <= POS_LIMIT,
        ensures
            r@.len() == radii@.len(),
            forall|m: int|
                0 <= m < r@.len() ==> ((#[trigger] r@[m]).0 matches Some(x) && x == m
                    * radii@[m] * spread + base),
            forall|m: int|
                0 <= m < r@.len() ==> ((#[trigger] r@[m]).1 matches Some(y) && -DEST_Y_RANGE <= y
                    < DEST_Y_RANGE),
            forall|m: int|
                0 <= m < r@.len() ==> ((#[trigger] r@[m]).0 matches Some(x) && -POS_LIMIT <= x
                    <= POS_LIMIT),
    {
        let mut out: Vec<(Option<i64>, Option<i64>)> = Vec::new();
        let mut i: usize = 0;
        while i < radii.len()
            invariant
                i <= radii@.len(),
                radii@.len() <= MAX_SEGMENTS,
                0 < spread <= 16,
                0 <= base <= 0x100_0000,
                forall|m: int| 0 <= m < radii@.len() ==> 0 < #[trigger] radii@[m] <= RADIUS_LIMIT,
                forall|m: int|
                    0 <= m < radii@.len() ==> m * #[trigger] radii@[m] * spread + base
                        <= POS_LIMIT,
                out@.len() == i,
                forall|m: int|
                    0 <= m < i ==> ((#[trigger] out@[m]).0 matches Some(x) && x == m
                        * radii@[m] * spread + base),
                forall|m: int|
                    0 <= m < i ==> ((#[trigger] out@[m]).1 matches Some(y) && -DEST_Y_RANGE <= y
                        < DEST_Y_RANGE),
                forall|m: int|
                    0 <= m < i ==> ((#[trigger] out@[m]).0 matches Some(x) && -POS_LIMIT <= x
                        <= POS_LIMIT),
            decreases radii@.len() - i,
        {
            proof {
                let p: int = i as int * radii@[i as int];
                assert(0 <= p && p <= p * spread) by (nonlinear_arith)
                    requires
                        i as int >= 0,
                        radii@[i as int] > 0,
                        spread >= 1,
                        p == i as int * radii@[i as int],
                ;
                assert(p * spread + base <= POS_LIMIT);
            }
            let x: i64 = (i as i64) * radii[i] * spread + base;
            let y: i64 = random_in_range(-DEST_Y_RANGE, DEST_Y_RANGE);
            out.push((Some(x), Some(y)));
            i = i + 1;
        }
        out
    }

    /// Add `acceleration` to the speed and clamp it into the configured
    /// bounds, raising to the minimum first and capping at the maximum.
    pub fn modify_speed(&mut self, acceleration: i64)
        requires
            -SPEED_LIMIT <= old(self).speed <= SPEED_LIMIT,
            -SPEED_LIMIT <= acceleration <= SPEED_LIMIT,
        ensures
            final(self).speed == clamp_speed(
                old(self).speed + acceleration,
                old(self).min_speed as int,
                old(self).max_speed as int,
            ),
            final(self).chain == old(self).chain,
            final(self).destination == old(self).destination,
            final(self).action == old(self).action,
            final(self).tail_size == old(self).tail_size,
            final(self).tail_shake == old(self).tail_shake,
            final(self).cos_vision == old(self).cos_vision,
            final(self).cos_quarter_vision == old(self).cos_quarter_vision,
            final(self).cos_turn == old(self).cos_turn,
            final(self).sin_turn == old(self).sin_turn,
            final(self).min_speed == old(self).min_speed,
            final(self).max_speed == old(self).max_speed,
    {
        let mut s: i64 = self.speed + acceleration;
        if s < self.min_speed {
            s = self.min_speed;
        }
        if s > self.max_speed {
            s = self.max_speed;
        }
        self.speed = s;
    }
}

} // verus!
