//! The articulated chain: an ordered, fixed-length sequence of segments and
//! the bidirectional propagation that keeps adjacent segments bound at a
//! fixed separation from any pivot index.
//!
//! Angles in the outline table are held in milliturns: one thousandth of a
//! full turn, so a half turn is exactly 500.

use vstd::prelude::*;

verus! {

use crate::circle::{Circle, CircleModel, RADIUS_LIMIT, POS_LIMIT};
use crate::vec2::{Vec2, Vec2Model, lemma_normalized_in_box};
use crate::math::{SCALE, tdiv, lemma_mul_abs_bound, lemma_tdiv_in_range};

/// Largest number of segments the propagation arithmetic admits.
pub const MAX_SEGMENTS: usize = 512;

/// One bind step moves a segment at most this far from its target
/// (twice `RADIUS_LIMIT`).
pub const BIND_STEP: i64 = 0x4_0000;

/// Every position coordinate stays within this bound across one whole
/// propagation pass that starts from positions within `POS_LIMIT`.
pub const POS_AFTER: i64 = 0x2800_0000;

/// The models of a sequence of segments.
pub open spec fn circle_models(s: Seq<Circle>) -> Seq<CircleModel> {
    s.map_values(|c: Circle| c@)
}

/// The model of one bind: aim segment `ci` at `cj`'s center, normalize its
/// direction, and place it behind the center at a separation of
/// `cj.radius + ci.offset`.
pub open spec fn bind_model(ci: CircleModel, cj: CircleModel) -> CircleModel {
    ci.aimed_at(cj.position).direction_normalized().bound_to(cj.position, cj.radius)
}

/// Propagation below the pivot: bind index `i` toward `i + 1`, then continue
/// down to index 0.
pub open spec fn prop_down(s: Seq<CircleModel>, i: int) -> Seq<CircleModel>
    decreases i + 1,
{
    if i < 0 {
        s
    } else {
        prop_down(s.update(i, bind_model(s[i], s[i + 1])), i - 1)
    }
}

/// Propagation above the pivot: bind index `i` toward `i - 1`, then continue
/// up to the end of the chain.
pub open spec fn prop_up(s: Seq<CircleModel>, i: int) -> Seq<CircleModel>
    decreases s.len() - i,
{
    if i < 1 || i >= s.len() {
        s
    } else {
        prop_up(s.update(i, bind_model(s[i], s[i - 1])), i + 1)
    }
}

/// Mapping the view across an update of one element commutes.
pub proof fn lemma_models_update(s: Seq<Circle>, i: int, c: Circle)
    requires
        0 <= i < s.len(),
    ensures
        circle_models(s.update(i, c)) == circle_models(s).update(i, c@),
{
    assert(circle_models(s.update(i, c)) =~= circle_models(s).update(i, c@));
}

/// A bind lands the moved segment within `BIND_STEP` of its target's box.
pub proof fn lemma_bind_in_box(ci: CircleModel, cj: CircleModel, b: int)
    requires
        0 <= cj.radius <= RADIUS_LIMIT as int,
        -(RADIUS_LIMIT as int) <= ci.offset <= RADIUS_LIMIT as int,
        cj.position.in_box(b),
        0 <= b,
    ensures
        bind_model(ci, cj).position.in_box(b + BIND_STEP as int),
        bind_model(ci, cj).direction.in_box(SCALE as int),
        bind_model(ci, cj).radius == ci.radius,
        bind_model(ci, cj).offset == ci.offset,
        bind_model(ci, cj).show_center == ci.show_center,
{
    let dir = cj.position.minus(ci.position);
    lemma_normalized_in_box(dir);
    assert(dir.norm_sq() >= 0) by (nonlinear_arith);
    if dir.norm_sq() == 0 {
        assert(dir.x == 0 && dir.y == 0) by (nonlinear_arith)
            requires
                dir.x * dir.x + dir.y * dir.y == 0,
        ;
    }
    let nd = dir.normalized();
    let k = cj.radius + ci.offset;
    lemma_mul_abs_bound(nd.x, k, SCALE as int, 2 * RADIUS_LIMIT as int);
    lemma_mul_abs_bound(nd.y, k, SCALE as int, 2 * RADIUS_LIMIT as int);
    lemma_tdiv_in_range(nd.x * k, SCALE as int, 2 * RADIUS_LIMIT as int);
    lemma_tdiv_in_range(nd.y * k, SCALE as int, 2 * RADIUS_LIMIT as int);
}

/// Whether the angle between `a` and `b` is strictly above the angle whose
/// fixed-point cosine is `cos_fx` (`cos_fx == ⌊cos ψ · SCALE⌋`, ψ in
/// `[0, π]`).  Derived from `dot(a,b) · SCALE < cos_fx · |a| · |b|` by
/// squaring; exact over the integers.  When either vector is zero the
/// angle is undefined and the test is false, as a float comparison against
/// a not-a-number would be.
pub open spec fn angle_gt_cos(a: Vec2Model, b: Vec2Model, cos_fx: int) -> bool {
    if a.norm_sq() == 0 || b.norm_sq() == 0 {
        false
    } else {
        let d = a.dot(b);
        if cos_fx > 0 {
            d <= 0 || d * d * (SCALE as int) * (SCALE as int) < cos_fx * cos_fx * a.norm_sq()
                * b.norm_sq()
        } else {
            d < 0 && d * d * (SCALE as int) * (SCALE as int) > cos_fx * cos_fx * a.norm_sq()
                * b.norm_sq()
        }
    }
}

/// Left / right / collinear classification of a point against a directed
/// line, under the screen's y-down coordinate convention.
#[derive(Clone, Copy, PartialEq, Eq, Structural, Debug)]
pub enum Orientation {
    LEFT,
    CENTER,
    RIGHT,
}

/// The ordered chain of segments plus its outline table: per segment one
/// sorted list of marker angles below a half turn ("lower") and one of
/// angles from a half turn up ("upper"), all in milliturns.
pub struct Chain {
    pub circles: Vec<Circle>,
    pub outlines_lower: Vec<Vec<i64>>,
    pub outlines_upper: Vec<Vec<i64>>,
}

impl Chain {
    /// The mathematical model of the segment sequence.
    pub open spec fn models(self) -> Seq<CircleModel> {
        circle_models(self.circles@)
    }

    /// Every segment's radius and offset is admissible.
    pub open spec fn params_all_ok(self) -> bool {
        forall|m: int|
            0 <= m < self.circles@.len() ==> (#[trigger] self.circles@[m])@.params_ok()
    }

    /// Every segment's center lies within the box of half-width `b`.
    pub open spec fn positions_in_box(self, b: int) -> bool {
        forall|m: int|
            0 <= m < self.circles@.len() ==> (#[trigger] self.circles@[m])@.position.in_box(b)
    }

    /// Snap segment `i` onto the frontier of segment `j`: aim `i` at `j`'s
    /// center, normalize its heading, and place it at separation
    /// `j.radius + i.offset`.
    pub fn bind_circle(&mut self, i: usize, j: usize)
        requires
            i < old(self).circles@.len(),
            j < old(self).circles@.len(),
            i != j,
            0 <= old(self).circles@[j as int]@.radius <= RADIUS_LIMIT as int,
            -(RADIUS_LIMIT as int) <= old(self).circles@[i as int]@.offset <= RADIUS_LIMIT as int,
            old(self).circles@[i as int]@.position.in_box(0x3000_0000),
            old(self).circles@[j as int]@.position.in_box(0x3000_0000),
        ensures
            final(self).circles@ == old(self).circles@.update(
                i as int,
                final(self).circles@[i as int],
            ),
            final(self).circles@[i as int]@ == bind_model(
                old(self).circles@[i as int]@,
                old(self).circles@[j as int]@,
            ),
            final(self).outlines_lower == old(self).outlines_lower,
            final(self).outlines_upper == old(self).outlines_upper,
    {
        let target: Vec2 = self.circles[j].position;
        let distance: i64 = self.circles[j].radius;
        let mut c: Circle = self.circles[i];
        c.set_target(&target);
        c.normalize_direction();
        proof {
            let d = target@.minus(old(self).circles@[i as int]@.position);
            lemma_normalized_in_box(d);
            assert(d.norm_sq() >= 0) by (nonlinear_arith);
            if d.norm_sq() == 0 {
                assert(d.x == 0 && d.y == 0) by (nonlinear_arith)
                    requires
                        d.x * d.x + d.y * d.y == 0,
                ;
            }
        }
        c.bound_to_target(&target, distance);
        self.circles[i] = c;
    }

    /// Starting from the pivot segment `k`, snap every other segment into
    /// place, cascading outward in both directions.  The pivot itself is
    /// left unmoved.
    pub fn update_positions(&mut self, k: usize)
        requires
            old(self).circles@.len() <= MAX_SEGMENTS,
            k < old(self).circles@.len(),
            old(self).params_all_ok(),
            old(self).positions_in_box(POS_LIMIT as int),
        ensures
            final(self).circles@.len() == old(self).circles@.len(),
            final(self).models() == prop_up(
                prop_down(old(self).models(), k as int - 1),
                k as int + 1,
            ),
            final(self).circles@[k as int] == old(self).circles@[k as int],
            final(self).params_all_ok(),
            final(self).positions_in_box(POS_AFTER as int),
            forall|m: int|
                0 <= m < old(self).circles@.len() && m != k
                    ==> (#[trigger] final(self).circles@[m])@.direction.in_box(SCALE as int),
            forall|m: int|
                0 <= m < old(self).circles@.len() ==> {
                    &&& (#[trigger] final(self).circles@[m])@.radius == old(
                        self,
                    ).circles@[m]@.radius
                    &&& final(self).circles@[m]@.offset == old(self).circles@[m]@.offset
                    &&& final(self).circles@[m]@.show_center == old(self).circles@[m]@.show_center
                },
            final(self).outlines_lower == old(self).outlines_lower,
            final(self).outlines_upper == old(self).outlines_upper,
    {
        let n: usize = self.circles.len();
        let mut i: usize = k;
        while i > 0
            invariant
                n == self.circles@.len(),
                n == old(self).circles@.len(),
                k < n <= MAX_SEGMENTS,
                i <= k,
                prop_down(self.models(), i as int - 1) == prop_down(
                    old(self).models(),
                    k as int - 1,
                ),
                forall|m: int|
                    0 <= m < i ==> #[trigger] self.circles@[m] == old(self).circles@[m],
                forall|m: int|
                    k <= m < n ==> #[trigger] self.circles@[m] == old(self).circles@[m],
                old(self).params_all_ok(),
                old(self).positions_in_box(POS_LIMIT as int),
                self.params_all_ok(),
                forall|m: int|
                    0 <= m < n ==> {
                        &&& (#[trigger] self.circles@[m])@.radius == old(
                            self,
                        ).circles@[m]@.radius
                        &&& self.circles@[m]@.offset == old(self).circles@[m]@.offset
                        &&& self.circles@[m]@.show_center == old(self).circles@[m]@.show_center
                    },
                forall|m: int|
                    i <= m < k ==> (#[trigger] self.circles@[m])@.position.in_box(
                        POS_LIMIT as int + (k - m) * BIND_STEP as int,
                    ),
                forall|m: int|
                    i <= m < k ==> (#[trigger] self.circles@[m])@.direction.in_box(SCALE as int),
                self.outlines_lower == old(self).outlines_lower,
                self.outlines_upper == old(self).outlines_upper,
            decreases i,
        {
            i = i - 1;
            let ghost prev: Seq<Circle> = self.circles@;
            proof {
                assert(self.circles@[i as int] == old(self).circles@[i as int]);
                assert(old(self).circles@[i as int]@.position.in_box(POS_LIMIT as int));
                assert(self.circles@[i as int]@.position.in_box(0x3000_0000));
                if i + 1 < k {
                    assert(self.circles@[i + 1 as int]@.position.in_box(
                        POS_LIMIT as int + (k - i - 1) * BIND_STEP as int,
                    ));
                    assert((k - i - 1) * BIND_STEP as int <= 512 * BIND_STEP as int);
                } else {
                    assert(self.circles@[i + 1 as int] == old(self).circles@[i + 1 as int]);
                    assert(old(self).circles@[i + 1 as int]@.position.in_box(POS_LIMIT as int));
                }
                assert(self.circles@[i + 1 as int]@.position.in_box(0x3000_0000));
            }
            self.bind_circle(i, i + 1);
            proof {
                let before: Seq<CircleModel> = circle_models(prev);
                lemma_models_update(prev, i as int, self.circles@[i as int]);
                assert(self.circles@ =~= prev.update(i as int, self.circles@[i as int]));
                assert(before[i as int] == prev[i as int]@);
                assert(before[i + 1 as int] == prev[i + 1 as int]@);
                assert(self.models() == before.update(
                    i as int,
                    bind_model(before[i as int], before[i + 1 as int]),
                ));
                assert(prop_down(before, i as int) == prop_down(self.models(), i as int - 1));
                let b: int = if i + 1 == k {
                    POS_LIMIT as int
                } else {
                    POS_LIMIT as int + (k - i - 1) * BIND_STEP as int
                };
                lemma_bind_in_box(before[i as int], before[i + 1 as int], b);
                assert(self.circles@[i as int]@.position.in_box(
                    POS_LIMIT as int + (k - i) * BIND_STEP as int,
                ));
            }
        }
        let ghost mid: Seq<CircleModel> = self.models();
        proof {
            assert(mid == prop_down(old(self).models(), k as int - 1));
        }
        let mut j: usize = k + 1;
        while j < n
            invariant
                n == self.circles@.len(),
                n == old(self).circles@.len(),
                k < n <= MAX_SEGMENTS,
                k < j <= n,
                mid == prop_down(old(self).models(), k as int - 1),
                prop_up(self.models(), j as int) == prop_up(mid, k as int + 1),
                forall|m: int|
                    j <= m < n ==> #[trigger] self.circles@[m] == old(self).circles@[m],
                self.circles@[k as int] == old(self).circles@[k as int],
                old(self).params_all_ok(),
                old(self).positions_in_box(POS_LIMIT as int),
                self.params_all_ok(),
                forall|m: int|
                    0 <= m < n ==> {
                        &&& (#[trigger] self.circles@[m])@.radius == old(
                            self,
                        ).circles@[m]@.radius
                        &&& self.circles@[m]@.offset == old(self).circles@[m]@.offset
                        &&& self.circles@[m]@.show_center == old(self).circles@[m]@.show_center
                    },
                forall|m: int|
                    0 <= m < k ==> (#[trigger] self.circles@[m])@.position.in_box(
                        POS_LIMIT as int + (k - m) * BIND_STEP as int,
                    ),
                forall|m: int|
                    k < m < j ==> (#[trigger] self.circles@[m])@.position.in_box(
                        POS_LIMIT as int + (m - k) * BIND_STEP as int,
                    ),
                forall|m: int|
                    0 <= m < k ==> (#[trigger] self.circles@[m])@.direction.in_box(SCALE as int),
                forall|m: int|
                    k < m < j ==> (#[trigger] self.circles@[m])@.direction.in_box(SCALE as int),
                self.outlines_lower == old(self).outlines_lower,
                self.outlines_upper == old(self).outlines_upper,
            decreases n - j,
        {
            let ghost prev: Seq<Circle> = self.circles@;
            proof {
                assert(self.circles@[j as int] == old(self).circles@[j as int]);
                assert(old(self).circles@[j as int]@.position.in_box(POS_LIMIT as int));
                assert(self.circles@[j as int]@.position.in_box(0x3000_0000));
                if k < j - 1 {
                    assert(self.circles@[j - 1 as int]@.position.in_box(
                        POS_LIMIT as int + (j - 1 - k) * BIND_STEP as int,
                    ));
                    assert((j - 1 - k) * BIND_STEP as int <= 512 * BIND_STEP as int);
                } else {
                    assert(self.circles@[j - 1 as int] == self.circles@[k as int]);
                    assert(self.circles@[k as int] == old(self).circles@[k as int]);
                    assert(old(self).circles@[k as int]@.position.in_box(POS_LIMIT as int));
                }
                assert(self.circles@[j - 1 as int]@.position.in_box(0x3000_0000));
            }
            self.bind_circle(j, j - 1);
            proof {
                let before: Seq<CircleModel> = circle_models(prev);
                lemma_models_update(prev, j as int, self.circles@[j as int]);
                assert(self.circles@ =~= prev.update(j as int, self.circles@[j as int]));
                assert(before[j as int] == prev[j as int]@);
                assert(before[j - 1 as int] == prev[j - 1 as int]@);
                assert(self.models() == before.update(
                    j as int,
                    bind_model(before[j as int], before[j - 1 as int]),
                ));
                assert(prop_up(before, j as int) == prop_up(self.models(), j as int + 1));
                let b: int = if j - 1 == k {
                    POS_LIMIT as int
                } else {
                    POS_LIMIT as int + (j - 1 - k) * BIND_STEP as int
                };
                lemma_bind_in_box(before[j as int], before[j - 1 as int], b);
                assert(self.circles@[j as int]@.position.in_box(
                    POS_LIMIT as int + (j - k) * BIND_STEP as int,
                ));
            }
            j = j + 1;
        }
        proof {
            assert(self.models() == prop_up(mid, k as int + 1));
            assert forall|m: int| 0 <= m < n implies (#[trigger] self.circles@[m])@.position.in_box(
                POS_AFTER as int,
            ) by {
                if m < k {
                    assert((k - m) * BIND_STEP as int <= 512 * BIND_STEP as int);
                } else if m > k {
                    assert((m - k) * BIND_STEP as int <= 512 * BIND_STEP as int);
                }
            }
        }
    }
}

/// Angles are measured in milliturns: one thousandth of a full turn.
pub const TURN: i64 = 1000;

/// Half a turn in milliturns.
pub const HALF_TURN: i64 = 500;

/// Largest radius change of one tail operation, in milli-units.
pub const TAIL_DELTA: i64 = 400;

/// Tail radii are never shrunk below this positive floor.
pub const MIN_TAIL_RADIUS: i64 = 100;

/// The classification `orientation_test` returns, as a function of the
/// cross product's sign.
pub open spec fn orientation_of(a: Vec2Model, b: Vec2Model, c: Vec2Model) -> Orientation {
    let det = b.minus(a).cross(c.minus(a));
    if det == 0 {
        Orientation::CENTER
    } else if det < 0 {
        Orientation::LEFT
    } else {
        Orientation::RIGHT
    }
}

/// Whether the angle between `a` and `b` is strictly below the angle whose
/// fixed-point cosine is `cos_fx` (`cos_fx == ⌊cos φ · SCALE⌋`, φ in
/// `[0, π]`).  Derived from `dot(a,b) · SCALE > cos_fx · |a| · |b|` by
/// squaring, which keeps the comparison exact over the integers.  When
/// either vector is zero the angle is undefined and the test is false.
pub open spec fn angle_lt_cos(a: Vec2Model, b: Vec2Model, cos_fx: int) -> bool {
    if a.norm_sq() == 0 || b.norm_sq() == 0 {
        false
    } else {
        let d = a.dot(b);
        if cos_fx >= 0 {
            d > 0 && d * d * (SCALE as int) * (SCALE as int) > cos_fx * cos_fx * a.norm_sq()
                * b.norm_sq()
        } else {
            d >= 0 || d * d * (SCALE as int) * (SCALE as int) < cos_fx * cos_fx * a.norm_sq()
                * b.norm_sq()
        }
    }
}

impl Chain {
    /// The Euclidean length of `v` in milli-units, rounded down.
    pub fn vector_length(v: &Vec2) -> (r: i64)
        requires
            v@.in_box(0x8000_0000),
        ensures
            r == crate::math::sqrt_floor(v@.norm_sq()),
            crate::math::is_sqrt_floor(v@.norm_sq(), r as int),
    {
        proof {
            lemma_mul_abs_bound(v@.x, v@.x, 0x8000_0000, 0x8000_0000);
            lemma_mul_abs_bound(v@.y, v@.y, 0x8000_0000, 0x8000_0000);
            assert(v@.x * v@.x >= 0 && v@.y * v@.y >= 0) by (nonlinear_arith);
        }
        let n: i128 = v.norm_sq();
        let r: u64 = crate::math::isqrt(n as u64);
        r as i64
    }

    /// Whether the angle between `a` and `b` lies strictly below the angle
    /// whose fixed-point cosine is `cos_fx`.  This replaces an arc-cosine
    /// comparison: `angle(a, b) < φ  ⟺  cos(angle) > cos φ`.
    pub fn angle_within(a: &Vec2, b: &Vec2, cos_fx: i64) -> (r: bool)
        requires
            a@.in_box(16 * SCALE as int),
            b@.in_box(2 * POS_LIMIT as int),
            -SCALE <= cos_fx <= SCALE,
        ensures
            r == angle_lt_cos(a@, b@, cos_fx as int),
    {
        proof {
            lemma_mul_abs_bound(a@.x, a@.x, 16 * SCALE as int, 16 * SCALE as int);
            lemma_mul_abs_bound(a@.y, a@.y, 16 * SCALE as int, 16 * SCALE as int);
            lemma_mul_abs_bound(b@.x, b@.x, 2 * POS_LIMIT as int, 2 * POS_LIMIT as int);
            lemma_mul_abs_bound(b@.y, b@.y, 2 * POS_LIMIT as int, 2 * POS_LIMIT as int);
            lemma_mul_abs_bound(a@.x, b@.x, 16 * SCALE as int, 2 * POS_LIMIT as int);
            lemma_mul_abs_bound(a@.y, b@.y, 16 * SCALE as int, 2 * POS_LIMIT as int);
        }
        let na: i128 = a.norm_sq();
        let nb: i128 = b.norm_sq();
        if na == 0 || nb == 0 {
            false
        } else {
            let d: i128 = a.dot(b);
            proof {
                let dd: int = a@.dot(b@);
                assert(-0x1_0000_0000_0000 <= dd <= 0x1_0000_0000_0000);
                assert(0 <= dd * dd <= 0x1_0000_0000_0000 * 0x1_0000_0000_0000)
                    by (nonlinear_arith)
                    requires
                        -0x1_0000_0000_0000 <= dd <= 0x1_0000_0000_0000,
                ;
                assert(dd * dd * (SCALE as int) * (SCALE as int)
                    <= 0x1_0000_0000_0000 * 0x1_0000_0000_0000 * 1000 * 1000)
                    by (nonlinear_arith)
                    requires
                        0 <= dd * dd <= 0x1_0000_0000_0000 * 0x1_0000_0000_0000,
                ;
                assert(0 <= a@.norm_sq() <= 0x2_0000_0000) by (nonlinear_arith)
                    requires
                        -16000 <= a@.x <= 16000,
                        -16000 <= a@.y <= 16000,
                ;
                assert(0 <= b@.norm_sq() <= 0x2_0000_0000_0000_0000) by (nonlinear_arith)
                    requires
                        -0x4000_0000 <= b@.x <= 0x4000_0000,
                        -0x4000_0000 <= b@.y <= 0x4000_0000,
                ;
                assert(0 <= (cos_fx as int) * (cos_fx as int) <= 0x10_0000) by (nonlinear_arith)
                    requires
                        -1000 <= cos_fx <= 1000,
                ;
                assert(0 <= (cos_fx as int) * (cos_fx as int) * a@.norm_sq()
                    <= 0x10_0000 * 0x2_0000_0000) by (nonlinear_arith)
                    requires
                        0 <= (cos_fx as int) * (cos_fx as int) <= 0x10_0000,
                        0 <= a@.norm_sq() <= 0x2_0000_0000,
                ;
                assert(0 <= (cos_fx as int) * (cos_fx as int) * a@.norm_sq() * b@.norm_sq()
                    <= 0x10_0000 * 0x2_0000_0000 * 0x2_0000_0000_0000_0000)
                    by (nonlinear_arith)
                    requires
                        0 <= (cos_fx as int) * (cos_fx as int) <= 0x10_0000,
                        0 <= a@.norm_sq() <= 0x2_0000_0000,
                        0 <= b@.norm_sq() <= 0x2_0000_0000_0000_0000,
                ;
            }
            let lhs: i128 = d * d * (SCALE as i128) * (SCALE as i128);
            let rhs: i128 = (cos_fx as i128) * (cos_fx as i128) * na * nb;
            if cos_fx >= 0 {
                d > 0 && lhs > rhs
            } else {
                d >= 0 || lhs < rhs
            }
        }
    }

    /// Whether the angle between `a` and `b` lies strictly above the angle
    /// whose fixed-point cosine is `cos_fx`; the strict counterpart of
    /// `angle_within`, used where a guard must fire only beyond a
    /// threshold.
    pub fn angle_beyond(a: &Vec2, b: &Vec2, cos_fx: i64) -> (r: bool)
        requires
            a@.in_box(16 * SCALE as int),
            b@.in_box(2 * POS_LIMIT as int),
            -SCALE <= cos_fx <= SCALE,
        ensures
            r == angle_gt_cos(a@, b@, cos_fx as int),
    {
        proof {
            lemma_mul_abs_bound(a@.x, a@.x, 16 * SCALE as int, 16 * SCALE as int);
            lemma_mul_abs_bound(a@.y, a@.y, 16 * SCALE as int, 16 * SCALE as int);
            lemma_mul_abs_bound(b@.x, b@.x, 2 * POS_LIMIT as int, 2 * POS_LIMIT as int);
            lemma_mul_abs_bound(b@.y, b@.y, 2 * POS_LIMIT as int, 2 * POS_LIMIT as int);
            lemma_mul_abs_bound(a@.x, b@.x, 16 * SCALE as int, 2 * POS_LIMIT as int);
            lemma_mul_abs_bound(a@.y, b@.y, 16 * SCALE as int, 2 * POS_LIMIT as int);
        }
        let na: i128 = a.norm_sq();
        let nb: i128 = b.norm_sq();
        if na == 0 || nb == 0 {
            false
        } else {
            let d: i128 = a.dot(b);
            proof {
                let dd: int = a@.dot(b@);
                assert(-0x1_0000_0000_0000 <= dd <= 0x1_0000_0000_0000);
                assert(0 <= dd * dd <= 0x1_0000_0000_0000 * 0x1_0000_0000_0000)
                    by (nonlinear_arith)
                    requires
                        -0x1_0000_0000_0000 <= dd <= 0x1_0000_0000_0000,
                ;
                assert(dd * dd * (SCALE as int) * (SCALE as int)
                    <= 0x1_0000_0000_0000 * 0x1_0000_0000_0000 * 1000 * 1000)
                    by (nonlinear_arith)
                    requires
                        0 <= dd * dd <= 0x1_0000_0000_0000 * 0x1_0000_0000_0000,
                ;
                assert(0 <= a@.norm_sq() <= 0x2_0000_0000) by (nonlinear_arith)
                    requires
                        -16000 <= a@.x <= 16000,
                        -16000 <= a@.y <= 16000,
                ;
                assert(0 <= b@.norm_sq() <= 0x2_0000_0000_0000_0000) by (nonlinear_arith)
                    requires
                        -0x4000_0000 <= b@.x <= 0x4000_0000,
                        -0x4000_0000 <= b@.y <= 0x4000_0000,
                ;
                assert(0 <= (cos_fx as int) * (cos_fx as int) <= 0x10_0000) by (nonlinear_arith)
                    requires
                        -1000 <= cos_fx <= 1000,
                ;
                assert(0 <= (cos_fx as int) * (cos_fx as int) * a@.norm_sq()
                    <= 0x10_0000 * 0x2_0000_0000) by (nonlinear_arith)
                    requires
                        0 <= (cos_fx as int) * (cos_fx as int) <= 0x10_0000,
                        0 <= a@.norm_sq() <= 0x2_0000_0000,
                ;
                assert(0 <= (cos_fx as int) * (cos_fx as int) * a@.norm_sq() * b@.norm_sq()
                    <= 0x10_0000 * 0x2_0000_0000 * 0x2_0000_0000_0000_0000)
                    by (nonlinear_arith)
                    requires
                        0 <= (cos_fx as int) * (cos_fx as int) <= 0x10_0000,
                        0 <= a@.norm_sq() <= 0x2_0000_0000,
                        0 <= b@.norm_sq() <= 0x2_0000_0000_0000_0000,
                ;
            }
            let lhs: i128 = d * d * (SCALE as i128) * (SCALE as i128);
            let rhs: i128 = (cos_fx as i128) * (cos_fx as i128) * na * nb;
            if cos_fx > 0 {
                d <= 0 || lhs < rhs
            } else {
                d < 0 && lhs > rhs
            }
        }
    }

    /// Classify `c` as left of, right of, or collinear with the directed
    /// line from `a` through `b`, by the sign of the cross product
    /// `(b − a) × (c − a)`.  Integer coordinates make the test exact, so no
    /// epsilon band is needed around the collinear case.
    pub fn orientation_test(a: &Vec2, b: &Vec2, c: &Vec2) -> (r: Orientation)
        requires
            a@.in_box(0x8_0000_0000),
            b@.in_box(0x8_0000_0000),
            c@.in_box(0x8_0000_0000),
        ensures
            r == orientation_of(a@, b@, c@),
    {
        let ba: Vec2 = b.minus(a);
        let ca: Vec2 = c.minus(a);
        let det: i128 = ba.cross(&ca);
        if det == 0 {
            Orientation::CENTER
        } else if det < 0 {
            Orientation::LEFT
        } else {
            Orientation::RIGHT
        }
    }

    /// Rotate `v` by the rotor `(cos_fx, sin_fx)`: the fixed-point cosine
    /// and sine of the rotation angle.
    pub fn rotate_vector(v: &Vec2, cos_fx: i64, sin_fx: i64) -> (r: Vec2)
        requires
            v@.in_box(crate::vec2::COORD_LIMIT as int),
            -2 * SCALE <= cos_fx <= 2 * SCALE,
            -2 * SCALE <= sin_fx <= 2 * SCALE,
        ensures
            r@ == v@.rotated(cos_fx as int, sin_fx as int),
    {
        v.rotated(cos_fx, sin_fx)
    }

    /// Increase the last two segments' radii by one pulsation step
    /// (`TAIL_DELTA` on the last, half of it on the one before).
    pub fn grow_tail(&mut self)
        requires
            old(self).circles@.len() >= 2,
            old(self).params_all_ok(),
        ensures
            final(self).circles@.len() == old(self).circles@.len(),
            final(self).circles@ == old(self).circles@.update(
                old(self).circles@.len() - 2,
                final(self).circles@[old(self).circles@.len() - 2],
            ).update(
                old(self).circles@.len() - 1,
                final(self).circles@[old(self).circles@.len() - 1],
            ),
            final(self).circles@[old(self).circles@.len() - 1]@ == (CircleModel {
                radius: old(self).circles@[old(self).circles@.len() - 1]@.radius + TAIL_DELTA,
                ..old(self).circles@[old(self).circles@.len() - 1]@
            }),
            final(self).circles@[old(self).circles@.len() - 2]@ == (CircleModel {
                radius: old(self).circles@[old(self).circles@.len() - 2]@.radius + TAIL_DELTA
                    / 2,
                ..old(self).circles@[old(self).circles@.len() - 2]@
            }),
            final(self).outlines_lower == old(self).outlines_lower,
            final(self).outlines_upper == old(self).outlines_upper,
    {
        let size: usize = self.circles.len() - 1;
        let mut last: Circle = self.circles[size];
        let mut prev: Circle = self.circles[size - 1];
        last.set_radius(last.radius + TAIL_DELTA);
        prev.set_radius(prev.radius + TAIL_DELTA / 2);
        self.circles[size - 1] = prev;
        self.circles[size] = last;
    }

    /// Decrease the last two segments' radii by one pulsation step, but
    /// never below `MIN_TAIL_RADIUS`: an unmatched run of shrink steps must
    /// not drive a radius to zero or below.
    pub fn shrink_tail(&mut self)
        requires
            old(self).circles@.len() >= 2,
            old(self).params_all_ok(),
        ensures
            final(self).circles@.len() == old(self).circles@.len(),
            final(self).circles@ == old(self).circles@.update(
                old(self).circles@.len() - 2,
                final(self).circles@[old(self).circles@.len() - 2],
            ).update(
                old(self).circles@.len() - 1,
                final(self).circles@[old(self).circles@.len() - 1],
            ),
            final(self).circles@[old(self).circles@.len() - 1]@ == (CircleModel {
                radius: crate::math::clamped_down(
                    old(self).circles@[old(self).circles@.len() - 1]@.radius - TAIL_DELTA,
                    MIN_TAIL_RADIUS as int,
                ),
                ..old(self).circles@[old(self).circles@.len() - 1]@
            }),
            final(self).circles@[old(self).circles@.len() - 2]@ == (CircleModel {
                radius: crate::math::clamped_down(
                    old(self).circles@[old(self).circles@.len() - 2]@.radius - TAIL_DELTA / 2,
                    MIN_TAIL_RADIUS as int,
                ),
                ..old(self).circles@[old(self).circles@.len() - 2]@
            }),
            final(self).outlines_lower == old(self).outlines_lower,
            final(self).outlines_upper == old(self).outlines_upper,
    {
        let size: usize = self.circles.len() - 1;
        let mut last: Circle = self.circles[size];
        let mut prev: Circle = self.circles[size - 1];
        let mut r_last: i64 = last.radius - TAIL_DELTA;
        if r_last < MIN_TAIL_RADIUS {
            r_last = MIN_TAIL_RADIUS;
        }
        let mut r_prev: i64 = prev.radius - TAIL_DELTA / 2;
        if r_prev < MIN_TAIL_RADIUS {
            r_prev = MIN_TAIL_RADIUS;
        }
        last.set_radius(r_last);
        prev.set_radius(r_prev);
        self.circles[size - 1] = prev;
        self.circles[size] = last;
    }
}

/// The explicit configuration a chain is built from: per-segment radii and
/// binding offsets, initial positions (a `None` coordinate keeps the
/// default), and optional per-segment outline marker angles in milliturns
/// (an empty table keeps the default outline).
pub struct ChainConfig {
    pub radii: Vec<i64>,
    pub offsets: Vec<i64>,
    pub positions: Vec<(Option<i64>, Option<i64>)>,
    pub outline: Vec<Vec<i64>>,
}

/// Construction failure: the configuration lists are malformed.
#[derive(Clone, Copy, PartialEq, Eq, Structural, Debug)]
pub enum ChainError {
    InvalidConfiguration,
}

impl ChainConfig {
    /// A well-formed configuration: at least two segments (the chain and
    /// tail operations need a neighbor), aligned list lengths, admissible
    /// radii and offsets, in-range positions, and an outline table that is
    /// either absent or aligned.
    pub open spec fn valid(self) -> bool {
        &&& 2 <= self.radii@.len() <= MAX_SEGMENTS
        &&& self.offsets@.len() == self.radii@.len()
        &&& self.positions@.len() == self.radii@.len()
        &&& forall|i: int|
            0 <= i < self.radii@.len() ==> 0 < #[trigger] self.radii@[i] <= RADIUS_LIMIT
        &&& forall|i: int|
            0 <= i < self.offsets@.len() ==> -RADIUS_LIMIT <= #[trigger] self.offsets@[i]
                <= RADIUS_LIMIT
        &&& forall|i: int|
            0 <= i < self.positions@.len() ==> ((#[trigger] self.positions@[i]).0 matches Some(x)
                ==> -POS_LIMIT <= x <= POS_LIMIT)
        &&& forall|i: int|
            0 <= i < self.positions@.len() ==> ((#[trigger] self.positions@[i]).1 matches Some(y)
                ==> -POS_LIMIT <= y <= POS_LIMIT)
        &&& self.outline@.len() == 0 || self.outline@.len() == self.radii@.len()
        &&& forall|i: int, j: int|
            0 <= i < self.outline@.len() && 0 <= j < self.outline@[i]@.len()
                ==> #[trigger] self.outline@[i]@[j] > i64::MIN
    }
}

/// The segment models a configuration describes, before any propagation:
/// each segment at its configured radius, offset and position (the origin
/// where a coordinate is left out), heading left.
pub open spec fn initial_models(cfg: ChainConfig) -> Seq<CircleModel> {
    Seq::new(
        cfg.radii@.len() as nat,
        |i: int| CircleModel {
            radius: cfg.radii@[i] as int,
            offset: cfg.offsets@[i] as int,
            position: Vec2Model {
                x: if cfg.positions@[i].0 is Some {
                    cfg.positions@[i].0->0 as int
                } else {
                    0
                },
                y: if cfg.positions@[i].1 is Some {
                    cfg.positions@[i].1->0 as int
                } else {
                    0
                },
            },
            direction: Vec2Model { x: -(SCALE as int), y: 0 },
            show_center: false,
        },
    )
}

impl Chain {
    /// Check a configuration; used by `new` and available to callers that
    /// must test before building.
    pub fn check_config(cfg: &ChainConfig) -> (r: bool)
        ensures
            r == cfg.valid(),
    {
        let n: usize = cfg.radii.len();
        if n < 2 || n > MAX_SEGMENTS {
            return false;
        }
        if cfg.offsets.len() != n || cfg.positions.len() != n {
            return false;
        }
        if cfg.outline.len() != 0 && cfg.outline.len() != n {
            return false;
        }
        let mut i: usize = 0;
        while i < n
            invariant
                i <= n,
                n == cfg.radii@.len(),
                n == cfg.offsets@.len(),
                n == cfg.positions@.len(),
                forall|m: int| 0 <= m < i ==> 0 < #[trigger] cfg.radii@[m] <= RADIUS_LIMIT,
                forall|m: int|
                    0 <= m < i ==> -RADIUS_LIMIT <= #[trigger] cfg.offsets@[m] <= RADIUS_LIMIT,
                forall|m: int|
                    0 <= m < i ==> ((#[trigger] cfg.positions@[m]).0 matches Some(x)
                        ==> -POS_LIMIT <= x <= POS_LIMIT),
                forall|m: int|
                    0 <= m < i ==> ((#[trigger] cfg.positions@[m]).1 matches Some(y)
                        ==> -POS_LIMIT <= y <= POS_LIMIT),
            decreases n - i,
        {
            let r: i64 = cfg.radii[i];
            if r <= 0 || r > RADIUS_LIMIT {
                return false;
            }
            let o: i64 = cfg.offsets[i];
            if o < -RADIUS_LIMIT || o > RADIUS_LIMIT {
                return false;
            }
            let p: (Option<i64>, Option<i64>) = cfg.positions[i];
            match p.0 {
                Some(x) => {
                    if x < -POS_LIMIT || x > POS_LIMIT {
                        return false;
                    }
                },
                None => {},
            }
            match p.1 {
                Some(y) => {
                    if y < -POS_LIMIT || y > POS_LIMIT {
                        return false;
                    }
                },
                None => {},
            }
            i = i + 1;
        }
        let mut oi: usize = 0;
        while oi < cfg.outline.len()
            invariant
                oi <= cfg.outline@.len(),
                forall|m: int, j: int|
                    0 <= m < oi && 0 <= j < cfg.outline@[m]@.len() ==> #[trigger] cfg.outline@[m]@[j]
                        > i64::MIN,
            decreases cfg.outline@.len() - oi,
        {
            let mut j: usize = 0;
            while j < cfg.outline[oi].len()
                invariant
                    oi < cfg.outline@.len(),
                    j <= cfg.outline@[oi as int]@.len(),
                    forall|jj: int|
                        0 <= jj < j ==> #[trigger] cfg.outline@[oi as int]@[jj] > i64::MIN,
                decreases cfg.outline@[oi as int]@.len() - j,
            {
                if cfg.outline[oi][j] == i64::MIN {
                    return false;
                }
                j = j + 1;
            }
            oi = oi + 1;
        }
        true
    }

    /// Build a chain from an explicit configuration.  Fails with
    /// `InvalidConfiguration` exactly when the configuration is malformed:
    /// fewer than two segments, mismatched list lengths, a non-positive or
    /// oversized radius or offset, an out-of-range position, or a
    /// misaligned outline table.
    pub fn new(cfg: &ChainConfig) -> (r: Result<Chain, ChainError>)
        ensures
            r is Ok <==> cfg.valid(),
            r matches Ok(c) ==> {
                &&& c.circles@.len() == cfg.radii@.len()
                &&& c.outlines_lower@.len() == cfg.radii@.len()
                &&& c.outlines_upper@.len() == cfg.radii@.len()
                &&& c.params_all_ok()
                &&& c.positions_in_box(POS_LIMIT as int)
                &&& forall|i: int|
                    0 <= i < cfg.radii@.len() ==> {
                        &&& (#[trigger] c.circles@[i])@.radius == cfg.radii@[i]
                        &&& c.circles@[i]@.offset == cfg.offsets@[i]
                        &&& c.circles@[i]@.position.x == (if cfg.positions@[i].0 is Some {
                            cfg.positions@[i].0->0 as int
                        } else {
                            0
                        })
                        &&& c.circles@[i]@.position.y == (if cfg.positions@[i].1 is Some {
                            cfg.positions@[i].1->0 as int
                        } else {
                            0
                        })
                        &&& c.circles@[i]@.direction == (Vec2Model { x: -(SCALE as int), y: 0 })
                        &&& c.circles@[i]@.show_center == false
                    }
            },
            r matches Ok(c) ==> c.models() == initial_models(*cfg),
            r matches Ok(c) ==> c.outline_wf(),
            r matches Err(e) ==> e == ChainError::InvalidConfiguration,
    {
        if !Self::check_config(cfg) {
            return Err(ChainError::InvalidConfiguration);
        }
        let n: usize = cfg.radii.len();
        let mut circles: Vec<Circle> = Vec::new();
        let mut i: usize = 0;
        while i < n
            invariant
                i <= n,
                n == cfg.radii@.len(),
                cfg.valid(),
                circles@.len() == i,
                forall|m: int|
                    0 <= m < i ==> {
                        &&& (#[trigger] circles@[m])@.radius == cfg.radii@[m]
                        &&& circles@[m]@.offset == cfg.offsets@[m]
                        &&& circles@[m]@.position.x == (if cfg.positions@[m].0 is Some {
                            cfg.positions@[m].0->0 as int
                        } else {
                            0
                        })
                        &&& circles@[m]@.position.y == (if cfg.positions@[m].1 is Some {
                            cfg.positions@[m].1->0 as int
                        } else {
                            0
                        })
                        &&& circles@[m]@.direction == (Vec2Model { x: -(SCALE as int), y: 0 })
                        &&& circles@[m]@.show_center == false
                    },
            decreases n - i,
        {
            let mut c: Circle = Circle::default();
            c.set_radius(cfg.radii[i]);
            c.set_offset(cfg.offsets[i]);
            let p: (Option<i64>, Option<i64>) = cfg.positions[i];
            let c2: Circle = c.set_position(p.0, p.1);
            circles.push(c2);
            i = i + 1;
        }
        let outline_table: (Vec<Vec<i64>>, Vec<Vec<i64>>) = Self::default_outline(n);
        let mut chain: Chain = Chain {
            circles,
            outlines_lower: outline_table.0,
            outlines_upper: outline_table.1,
        };
        proof {
            assert(chain.outline_wf());
        }
        if cfg.outline.len() > 0 {
            chain.refine_outline(&cfg.outline);
        }
        proof {
            assert(chain.models() =~= initial_models(*cfg));
        }
        Ok(chain)
    }
}

/// Segments `a` and `b` sit at the bound separation `k = b.radius +
/// a.offset`, up to fixed-point truncation: scaled by `SCALE²`, the squared
/// distance between their centers is within a relative error of `4/SCALE`
/// plus an additive `4·SCALE²·k` of `k²`.
pub open spec fn separation_close(a: CircleModel, b: CircleModel) -> bool {
    let sc = SCALE as int;
    let k = b.radius + a.offset;
    let d2 = a.position.minus(b.position).norm_sq();
    &&& (sc * sc - 4 * sc) * (k * k) - 4 * (sc * sc) * k <= (sc * sc) * d2
    &&& (sc * sc) * d2 <= (sc + 1) * (sc + 1) * (k * k)
}

/// One bind places the moved segment at the required separation from its
/// target, up to fixed-point truncation, provided the segment starts at
/// least one unit away from the target (so that normalization is accurate)
/// and the bound separation is nonnegative.
pub proof fn lemma_bind_distance(ci: CircleModel, cj: CircleModel)
    requires
        cj.position.minus(ci.position).norm_sq() >= (SCALE as int) * (SCALE as int),
        cj.radius + ci.offset >= 0,
    ensures
        separation_close(bind_model(ci, cj), cj),
{
    let sc: int = SCALE as int;
    let dir = cj.position.minus(ci.position);
    let nd = dir.normalized();
    let k = cj.radius + ci.offset;
    crate::vec2::lemma_normalized_band(dir);
    crate::vec2::lemma_normalized_in_box(dir);
    assert(dir.norm_sq() > 0);
    let sx = tdiv(nd.x * k, sc);
    let sy = tdiv(nd.y * k, sc);
    crate::math::lemma_tdiv_mul_bounds(nd.x * k, sc);
    crate::math::lemma_tdiv_mul_bounds(nd.y * k, sc);
    assert((sc * sx) * (sc * sx) <= (nd.x * k) * (nd.x * k) && (sc * sx) * (sc * sx) >= (nd.x * k)
        * (nd.x * k) - 2 * ((sc * sc) * k)) by (nonlinear_arith)
        requires
            sc >= 1,
            k >= 0,
            -sc <= nd.x <= sc,
            nd.x * k >= 0 ==> sc * sx <= nd.x * k < sc * sx + sc,
            nd.x * k < 0 ==> sc * sx - sc < nd.x * k <= sc * sx,
    ;
    assert((sc * sy) * (sc * sy) <= (nd.y * k) * (nd.y * k) && (sc * sy) * (sc * sy) >= (nd.y * k)
        * (nd.y * k) - 2 * ((sc * sc) * k)) by (nonlinear_arith)
        requires
            sc >= 1,
            k >= 0,
            -sc <= nd.y <= sc,
            nd.y * k >= 0 ==> sc * sy <= nd.y * k < sc * sy + sc,
            nd.y * k < 0 ==> sc * sy - sc < nd.y * k <= sc * sy,
    ;
    assert((sc * sc) * (sx * sx + sy * sy) == (sc * sx) * (sc * sx) + (sc * sy) * (sc * sy))
        by (nonlinear_arith);
    assert((nd.x * k) * (nd.x * k) + (nd.y * k) * (nd.y * k) == nd.norm_sq() * (k * k))
        by (nonlinear_arith)
        requires
            nd.norm_sq() == nd.x * nd.x + nd.y * nd.y,
    ;
    assert((sc * sc) * (sx * sx + sy * sy) <= nd.norm_sq() * (k * k));
    assert((sc * sc) * (sx * sx + sy * sy) >= nd.norm_sq() * (k * k) - 4 * ((sc * sc) * k));
    assert(nd.norm_sq() * (k * k) <= (sc + 1) * (sc + 1) * (k * k)) by (nonlinear_arith)
        requires
            nd.norm_sq() <= (sc + 1) * (sc + 1),
            k * k >= 0,
    ;
    assert(nd.norm_sq() * (k * k) >= (sc * sc - 4 * sc) * (k * k)) by (nonlinear_arith)
        requires
            nd.norm_sq() >= sc * sc - 4 * sc,
            k * k >= 0,
    ;
    assert(k * k >= 0) by (nonlinear_arith);
    assert((sc * sc) * (sx * sx + sy * sy) >= (sc * sc - 4 * sc) * (k * k) - 4 * (sc * sc) * k)
        by (nonlinear_arith)
        requires
            (sc * sc) * (sx * sx + sy * sy) >= nd.norm_sq() * (k * k) - 4 * ((sc * sc) * k),
            nd.norm_sq() * (k * k) >= (sc * sc - 4 * sc) * (k * k),
    ;
    let moved = bind_model(ci, cj);
    assert(moved.position == cj.position.minus(nd.scaled_by(k)));
    assert(moved.position.minus(cj.position).norm_sq() == sx * sx + sy * sy) by {
        assert(moved.position.minus(cj.position) == (Vec2Model { x: -sx, y: -sy }));
        assert((-sx) * (-sx) == sx * sx && (-sy) * (-sy) == sy * sy) by (nonlinear_arith);
    }
}

/// Propagation below the pivot leaves indices above `i` untouched and never
/// changes any segment's radius, offset or marker.
pub proof fn lemma_prop_down_frame(s: Seq<CircleModel>, i: int)
    requires
        i < s.len(),
    ensures
        prop_down(s, i).len() == s.len(),
        forall|j: int| i < j < s.len() ==> prop_down(s, i)[j] == s[j],
        forall|j: int|
            0 <= j < s.len() ==> {
                &&& (#[trigger] prop_down(s, i)[j]).radius == s[j].radius
                &&& prop_down(s, i)[j].offset == s[j].offset
                &&& prop_down(s, i)[j].show_center == s[j].show_center
            },
    decreases i + 1,
{
    if i >= 0 {
        let s1 = s.update(i, bind_model(s[i], s[i + 1]));
        lemma_prop_down_frame(s1, i - 1);
    }
}

/// Propagation above the pivot leaves indices below `i` untouched and never
/// changes any segment's radius, offset or marker.
pub proof fn lemma_prop_up_frame(s: Seq<CircleModel>, i: int)
    ensures
        prop_up(s, i).len() == s.len(),
        forall|j: int| 0 <= j < i ==> prop_up(s, i)[j] == s[j],
        forall|j: int|
            0 <= j < s.len() ==> {
                &&& (#[trigger] prop_up(s, i)[j]).radius == s[j].radius
                &&& prop_up(s, i)[j].offset == s[j].offset
                &&& prop_up(s, i)[j].show_center == s[j].show_center
            },
    decreases s.len() - i,
{
    if 1 <= i < s.len() {
        let s1 = s.update(i, bind_model(s[i], s[i - 1]));
        lemma_prop_up_frame(s1, i + 1);
    }
}

/// Every bind of the downward pass starts at least one unit from its
/// target, evaluated on the intermediate configurations the pass actually
/// sees.
pub open spec fn prop_down_separated(s: Seq<CircleModel>, i: int) -> bool
    decreases i + 1,
{
    if i < 0 {
        true
    } else {
        &&& cj_minus_ci_norm(s, i) >= (SCALE as int) * (SCALE as int)
        &&& prop_down_separated(s.update(i, bind_model(s[i], s[i + 1])), i - 1)
    }
}

/// The squared distance from segment `i` to its downward-pass target.
pub open spec fn cj_minus_ci_norm(s: Seq<CircleModel>, i: int) -> int {
    s[i + 1].position.minus(s[i].position).norm_sq()
}

/// Every bind of the upward pass starts at least one unit from its target.
pub open spec fn prop_up_separated(s: Seq<CircleModel>, i: int) -> bool
    decreases s.len() - i,
{
    if i < 1 || i >= s.len() {
        true
    } else {
        &&& s[i - 1].position.minus(s[i].position).norm_sq() >= (SCALE as int) * (SCALE as int)
        &&& prop_up_separated(s.update(i, bind_model(s[i], s[i - 1])), i + 1)
    }
}

/// Bind distance invariant, downward: after the downward pass every bound
/// pair `(j, j + 1)` with `j <= i` sits at its required separation, up to
/// fixed-point truncation.
pub proof fn lemma_prop_down_distances(s: Seq<CircleModel>, i: int)
    requires
        i + 1 < s.len(),
        prop_down_separated(s, i),
        forall|j: int| 0 <= j <= i ==> #[trigger] s[j + 1].radius + s[j].offset >= 0,
    ensures
        forall|j: int|
            0 <= j <= i ==> #[trigger] separation_close(prop_down(s, i)[j], prop_down(s, i)[j + 1]),
    decreases i + 1,
{
    if i >= 0 {
        let s1 = s.update(i, bind_model(s[i], s[i + 1]));
        lemma_bind_distance(s[i], s[i + 1]);
        lemma_prop_down_frame(s1, i - 1);
        lemma_prop_down_distances(s1, i - 1);
        assert(prop_down(s, i) == prop_down(s1, i - 1));
        assert(prop_down(s1, i - 1)[i] == s1[i]);
        assert(prop_down(s1, i - 1)[i + 1] == s1[i + 1]);
        assert(separation_close(prop_down(s, i)[i], prop_down(s, i)[i + 1]));
    }
}

/// Bind distance invariant, upward: after the upward pass every bound pair
/// `(j, j - 1)` with `j >= i` sits at its required separation, up to
/// fixed-point truncation.
pub proof fn lemma_prop_up_distances(s: Seq<CircleModel>, i: int)
    requires
        1 <= i,
        prop_up_separated(s, i),
        forall|j: int| i <= j < s.len() ==> #[trigger] s[j - 1].radius + s[j].offset >= 0,
    ensures
        forall|j: int|
            i <= j < s.len() ==> #[trigger] separation_close(prop_up(s, i)[j], prop_up(s, i)[j - 1]),
    decreases s.len() - i,
{
    if i < s.len() {
        let s1 = s.update(i, bind_model(s[i], s[i - 1]));
        lemma_bind_distance(s[i], s[i - 1]);
        lemma_prop_up_frame(s1, i + 1);
        lemma_prop_up_distances(s1, i + 1);
        assert(prop_up(s, i) == prop_up(s1, i + 1));
        assert(prop_up(s1, i + 1)[i] == s1[i]);
        assert(prop_up(s1, i + 1)[i - 1] == s1[i - 1]);
        assert(separation_close(prop_up(s, i)[i], prop_up(s, i)[i - 1]));
    }
}

/// Bind distance invariant and pivot generality, together: propagation from
/// any pivot `k` leaves segment `k` exactly in place, and afterward every
/// adjacent pair sits at its required separation (up to fixed-point
/// truncation) on both sides of the pivot — pairs below `k` bound downward,
/// pairs above `k` bound upward.
pub proof fn lemma_update_positions_separation(s: Seq<CircleModel>, k: int)
    requires
        0 <= k < s.len(),
        prop_down_separated(s, k - 1),
        prop_up_separated(prop_down(s, k - 1), k + 1),
        forall|j: int| 0 <= j < k ==> #[trigger] s[j + 1].radius + s[j].offset >= 0,
        forall|j: int| k < j < s.len() ==> #[trigger] s[j - 1].radius + s[j].offset >= 0,
    ensures
        prop_up(prop_down(s, k - 1), k + 1)[k] == s[k],
        forall|j: int|
            0 <= j < k ==> #[trigger] separation_close(
                prop_up(prop_down(s, k - 1), k + 1)[j],
                prop_up(prop_down(s, k - 1), k + 1)[j + 1],
            ),
        forall|j: int|
            k < j < s.len() ==> #[trigger] separation_close(
                prop_up(prop_down(s, k - 1), k + 1)[j],
                prop_up(prop_down(s, k - 1), k + 1)[j - 1],
            ),
{
    let mid = prop_down(s, k - 1);
    let t = prop_up(mid, k + 1);
    lemma_prop_down_frame(s, k - 1);
    lemma_prop_up_frame(mid, k + 1);
    if k >= 1 {
        lemma_prop_down_distances(s, k - 1);
        assert forall|j: int| 0 <= j < k implies #[trigger] separation_close(t[j], t[j + 1]) by {
            assert(t[j] == mid[j]);
            assert(t[j + 1] == mid[j + 1]);
            assert(separation_close(mid[j], mid[j + 1]));
        }
    }
    if k + 1 < s.len() {
        assert forall|j: int| k < j < mid.len() implies #[trigger] mid[j - 1].radius + mid[j].offset
            >= 0 by {
            assert(mid[j - 1].radius == s[j - 1].radius);
            assert(mid[j].offset == s[j].offset);
        }
        lemma_prop_up_distances(mid, k + 1);
    }
}

/// The radius value after `k` shrink steps of size `d`, each clamped below
/// at `lo` — the evolution `shrink_tail` gives one tail radius.
pub open spec fn shrunk_times(r: int, k: nat, d: int, lo: int) -> int
    decreases k,
{
    if k == 0 {
        r
    } else {
        shrunk_times(crate::math::clamped_down(r - d, lo), (k - 1) as nat, d, lo)
    }
}

/// Tail pulsation round trip: a radius that starts at or above the shrink
/// floor, grows `k` times by `d` (as `grow_tail` does with `TAIL_DELTA` and
/// `TAIL_DELTA / 2`), and then shrinks `k` times by `d` (as `shrink_tail`
/// does), returns exactly to its starting value: no intermediate shrink
/// step ever reaches the clamp.
pub proof fn lemma_tail_pulsation_round_trip(r: int, k: nat, d: int)
    requires
        r >= MIN_TAIL_RADIUS as int,
        d >= 0,
    ensures
        shrunk_times(r + k * d, k, d, MIN_TAIL_RADIUS as int) == r,
    decreases k,
{
    if k > 0 {
        let k1: nat = (k - 1) as nat;
        assert(k * d == k1 * d + d) by (nonlinear_arith)
            requires
                k >= 1,
                k1 == k - 1,
        ;
        assert(k1 * d >= 0) by (nonlinear_arith)
            requires
                d >= 0,
        ;
        assert(crate::math::clamped_down(r + k * d - d, MIN_TAIL_RADIUS as int) == r + k1 * d);
        lemma_tail_pulsation_round_trip(r, k1, d);
        assert(shrunk_times(r + k * d, k, d, MIN_TAIL_RADIUS as int) == shrunk_times(
            r + k1 * d,
            k1,
            d,
            MIN_TAIL_RADIUS as int,
        ));
    } else {
        assert(k * d == 0) by (nonlinear_arith)
            requires
                k == 0,
        ;
        assert(shrunk_times(r + k * d, k, d, MIN_TAIL_RADIUS as int) == r);
    }
}

/// Orientation correctness on exactly collinear points: any point on the
/// line through `a` and `b` (at integer parameter `t` along `b - a`) is
/// classified `CENTER` — with integer coordinates the cross product of
/// collinear points is exactly zero, so no epsilon band is involved.
pub proof fn lemma_orientation_collinear(a: Vec2Model, b: Vec2Model, t: int)
    ensures
        orientation_of(
            a,
            b,
            Vec2Model { x: a.x + t * (b.x - a.x), y: a.y + t * (b.y - a.y) },
        ) == Orientation::CENTER,
{
    let c = Vec2Model { x: a.x + t * (b.x - a.x), y: a.y + t * (b.y - a.y) };
    assert(b.minus(a).cross(c.minus(a)) == 0) by (nonlinear_arith)
        requires
            c.x == a.x + t * (b.x - a.x),
            c.y == a.y + t * (b.y - a.y),
            b.minus(a).cross(c.minus(a)) == (b.x - a.x) * (c.y - a.y) - (b.y - a.y) * (c.x - a.x),
    ;
}

/// The denominator of the circumcenter's `f` coordinate: proportional to
/// the cross product of the two chords, zero exactly when the three points
/// are collinear.
pub open spec fn circum_den_f(a: Vec2Model, b: Vec2Model, c: Vec2Model) -> int {
    2 * ((a.y - b.y) * (a.x - c.x) - (a.y - c.y) * (a.x - b.x))
}

/// The denominator of the circumcenter's `g` coordinate; the negation of
/// `circum_den_f`.
pub open spec fn circum_den_g(a: Vec2Model, b: Vec2Model, c: Vec2Model) -> int {
    2 * ((a.x - b.x) * (a.y - c.y) - (a.x - c.x) * (a.y - b.y))
}

/// The numerator over which `f` (the negated center ordinate) is computed.
pub open spec fn circum_num_f(a: Vec2Model, b: Vec2Model, c: Vec2Model) -> int {
    (a.x * a.x - c.x * c.x) * (a.x - b.x) + (a.y * a.y - c.y * c.y) * (a.x - b.x) + (b.x * b.x
        - a.x * a.x) * (a.x - c.x) + (b.y * b.y - a.y * a.y) * (a.x - c.x)
}

/// The numerator over which `g` (the negated center abscissa) is computed.
pub open spec fn circum_num_g(a: Vec2Model, b: Vec2Model, c: Vec2Model) -> int {
    (a.x * a.x - c.x * c.x) * (a.y - b.y) + (a.y * a.y - c.y * c.y) * (a.y - b.y) + (b.x * b.x
        - a.x * a.x) * (a.y - c.y) + (b.y * b.y - a.y * a.y) * (a.y - c.y)
}

/// The squared circumradius as the formula yields it from the truncated
/// `f` and `g`: `f² + g² + |a|² + 2·g·aₓ + 2·f·a_y`, which equals
/// `(g + aₓ)² + (f + a_y)²` and so is never negative.
pub open spec fn circum_radicand(a: Vec2Model, f: int, g: int) -> int {
    f * f + g * g + a.x * a.x + a.y * a.y + 2 * (g * a.x) + 2 * (f * a.y)
}

impl Chain {
    /// The circle through three points, as center and radius (rounded
    /// down).  Returns `None` exactly when the points are collinear (no
    /// circle passes through them) or when the center overflows the
    /// coordinate range the fixed-point arithmetic admits.
    pub fn circle_from_three_points(a: &Vec2, b: &Vec2, c: &Vec2) -> (r: Option<(Vec2, i64)>)
        requires
            a@.in_box(0x10_0000),
            b@.in_box(0x10_0000),
            c@.in_box(0x10_0000),
        ensures
            r is Some <==> {
                &&& circum_den_f(a@, b@, c@) != 0
                &&& crate::math::sdiv(circum_num_f(a@, b@, c@), circum_den_f(a@, b@, c@))
                    <= 0x4000_0000
                &&& crate::math::sdiv(circum_num_f(a@, b@, c@), circum_den_f(a@, b@, c@))
                    >= -0x4000_0000
                &&& crate::math::sdiv(circum_num_g(a@, b@, c@), circum_den_g(a@, b@, c@))
                    <= 0x4000_0000
                &&& crate::math::sdiv(circum_num_g(a@, b@, c@), circum_den_g(a@, b@, c@))
                    >= -0x4000_0000
            },
            r matches Some(p) ==> {
                &&& p.0@.x == -crate::math::sdiv(
                    circum_num_g(a@, b@, c@),
                    circum_den_g(a@, b@, c@),
                )
                &&& p.0@.y == -crate::math::sdiv(
                    circum_num_f(a@, b@, c@),
                    circum_den_f(a@, b@, c@),
                )
                &&& p.1 == crate::math::sqrt_floor(
                    circum_radicand(
                        a@,
                        crate::math::sdiv(circum_num_f(a@, b@, c@), circum_den_f(a@, b@, c@)),
                        crate::math::sdiv(circum_num_g(a@, b@, c@), circum_den_g(a@, b@, c@)),
                    ),
                )
            },
    {
        let ax: i128 = a.x as i128;
        let ay: i128 = a.y as i128;
        let bx: i128 = b.x as i128;
        let by_: i128 = b.y as i128;
        let cx: i128 = c.x as i128;
        let cy: i128 = c.y as i128;
        proof {
            lemma_mul_abs_bound(a@.x, a@.x, 0x10_0000, 0x10_0000);
            lemma_mul_abs_bound(a@.y, a@.y, 0x10_0000, 0x10_0000);
            lemma_mul_abs_bound(b@.x, b@.x, 0x10_0000, 0x10_0000);
            lemma_mul_abs_bound(b@.y, b@.y, 0x10_0000, 0x10_0000);
            lemma_mul_abs_bound(c@.x, c@.x, 0x10_0000, 0x10_0000);
            lemma_mul_abs_bound(c@.y, c@.y, 0x10_0000, 0x10_0000);
        }
        let xab: i128 = ax - bx;
        let xac: i128 = ax - cx;
        let yab: i128 = ay - by_;
        let yac: i128 = ay - cy;
        let sqxac: i128 = ax * ax - cx * cx;
        let sqxba: i128 = bx * bx - ax * ax;
        let sqyac: i128 = ay * ay - cy * cy;
        let sqyba: i128 = by_ * by_ - ay * ay;
        proof {
            lemma_mul_abs_bound(yab as int, xac as int, 0x20_0000, 0x20_0000);
            lemma_mul_abs_bound(yac as int, xab as int, 0x20_0000, 0x20_0000);
            lemma_mul_abs_bound(xab as int, yac as int, 0x20_0000, 0x20_0000);
            lemma_mul_abs_bound(xac as int, yab as int, 0x20_0000, 0x20_0000);
            lemma_mul_abs_bound(sqxac as int, xab as int, 0x200_0000_0000, 0x20_0000);
            lemma_mul_abs_bound(sqyac as int, xab as int, 0x200_0000_0000, 0x20_0000);
            lemma_mul_abs_bound(sqxba as int, xac as int, 0x200_0000_0000, 0x20_0000);
            lemma_mul_abs_bound(sqyba as int, xac as int, 0x200_0000_0000, 0x20_0000);
            lemma_mul_abs_bound(sqxac as int, yab as int, 0x200_0000_0000, 0x20_0000);
            lemma_mul_abs_bound(sqyac as int, yab as int, 0x200_0000_0000, 0x20_0000);
            lemma_mul_abs_bound(sqxba as int, yac as int, 0x200_0000_0000, 0x20_0000);
            lemma_mul_abs_bound(sqyba as int, yac as int, 0x200_0000_0000, 0x20_0000);
        }
        let den_f: i128 = 2 * (yab * xac - yac * xab);
        let den_g: i128 = 2 * (xab * yac - xac * yab);
        if den_f == 0 {
            proof {
                assert(circum_den_f(a@, b@, c@) == 0);
            }
            return None;
        }
        let num_f: i128 = sqxac * xab + sqyac * xab + sqxba * xac + sqyba * xac;
        let num_g: i128 = sqxac * yab + sqyac * yab + sqxba * yac + sqyba * yac;
        proof {
            assert(den_g == -den_f) by (nonlinear_arith)
                requires
                    den_f == 2 * ((yab as int) * (xac as int) - (yac as int) * (xab as int)),
                    den_g == 2 * ((xab as int) * (yac as int) - (xac as int) * (yab as int)),
            ;
            assert(den_g != 0);
        }
        let fq: i128 = Self::quotient(num_f, den_f);
        let gq: i128 = Self::quotient(num_g, den_g);
        if fq > 0x4000_0000 || fq < -0x4000_0000 || gq > 0x4000_0000 || gq < -0x4000_0000 {
            return None;
        }
        let f: i64 = fq as i64;
        let g: i64 = gq as i64;
        let fw: i128 = f as i128;
        let gw: i128 = g as i128;
        proof {
            lemma_mul_abs_bound(fw as int, fw as int, 0x4000_0000, 0x4000_0000);
            lemma_mul_abs_bound(gw as int, gw as int, 0x4000_0000, 0x4000_0000);
            lemma_mul_abs_bound(gw as int, ax as int, 0x4000_0000, 0x10_0000);
            lemma_mul_abs_bound(fw as int, ay as int, 0x4000_0000, 0x10_0000);
        }
        let radicand: i128 = fw * fw + gw * gw + ax * ax + ay * ay + 2 * (gw * ax) + 2 * (fw * ay);
        proof {
            assert(radicand == (gw + ax) * (gw + ax) + (fw + ay) * (fw + ay))
                by (nonlinear_arith)
                requires
                    radicand == fw * fw + gw * gw + ax * ax + ay * ay + 2 * (gw * ax) + 2 * (fw
                        * ay),
            ;
            assert((gw + ax) * (gw + ax) >= 0 && (fw + ay) * (fw + ay) >= 0)
                by (nonlinear_arith);
            assert((gw + ax) * (gw + ax) + (fw + ay) * (fw + ay) < 0x8000_0000_0000_0000)
                by (nonlinear_arith)
                requires
                    -0x4010_0000 <= gw + ax <= 0x4010_0000,
                    -0x4010_0000 <= fw + ay <= 0x4010_0000,
            ;
        }
        let rad: u64 = crate::math::isqrt(radicand as u64);
        Some((Vec2 { x: -g, y: -f }, rad as i64))
    }

    /// Truncating division of the wide intermediate quotients above, with a
    /// signed divisor.
    fn quotient(n: i128, d: i128) -> (r: i128)
        requires
            d != 0,
            -0x1000_0000_0000_0000_0000 <= n <= 0x1000_0000_0000_0000_0000,
            -0x1000_0000_0000_0000_0000 <= d <= 0x1000_0000_0000_0000_0000,
        ensures
            r == crate::math::sdiv(n as int, d as int),
    {
        if d > 0 {
            Self::quotient_pos(n, d)
        } else {
            Self::quotient_pos(-n, -d)
        }
    }

    /// Truncating division by a positive divisor, for values wider than the
    /// fixed-point helpers admit.
    fn quotient_pos(n: i128, d: i128) -> (r: i128)
        requires
            d > 0,
            -0x1000_0000_0000_0000_0000 <= n <= 0x1000_0000_0000_0000_0000,
        ensures
            r == crate::math::tdiv(n as int, d as int),
    {
        if n >= 0 {
            proof {
                vstd::arithmetic::div_mod::lemma_div_nonincreasing(n as int, d as int);
                vstd::arithmetic::div_mod::lemma_div_pos_is_pos(n as int, d as int);
            }
            let q: u128 = (n as u128) / (d as u128);
            q as i128
        } else {
            proof {
                vstd::arithmetic::div_mod::lemma_div_nonincreasing(-(n as int), d as int);
                vstd::arithmetic::div_mod::lemma_div_pos_is_pos(-(n as int), d as int);
            }
            let q: u128 = ((-n) as u128) / (d as u128);
            -(q as i128)
        }
    }
}

} // verus!
