//! 2D vectors in fixed-point coordinates.
//!
//! `Vec2` carries coordinates in milli-units (see [`crate::math::SCALE`]).
//! Its mathematical model is [`Vec2Model`], a pair of unbounded integers, on
//! which all contracts are stated.

use vstd::prelude::*;

verus! {

use crate::math::{SCALE, tdiv, scaled, sqrt_floor, isqrt, tdiv_i128, lemma_mul_abs_bound};

/// Mathematical model of a 2D fixed-point vector: unbounded integer
/// coordinates in milli-units.
pub ghost struct Vec2Model {
    pub x: int,
    pub y: int,
}

impl Vec2Model {
    pub open spec fn plus(self, o: Self) -> Self {
        Vec2Model { x: self.x + o.x, y: self.y + o.y }
    }

    pub open spec fn minus(self, o: Self) -> Self {
        Vec2Model { x: self.x - o.x, y: self.y - o.y }
    }

    /// Scaling by a fixed-point factor `k` (so `k == SCALE` is the identity
    /// up to truncation).
    pub open spec fn scaled_by(self, k: int) -> Self {
        Vec2Model { x: scaled(self.x, k), y: scaled(self.y, k) }
    }

    /// Squared Euclidean length, in squared milli-units.
    pub open spec fn norm_sq(self) -> int {
        self.x * self.x + self.y * self.y
    }

    pub open spec fn dot(self, o: Self) -> int {
        self.x * o.x + self.y * o.y
    }

    /// The z component of the cross product `self × o`.
    pub open spec fn cross(self, o: Self) -> int {
        self.x * o.y - self.y * o.x
    }

    /// Rotation by a rotor `(c, s)`, the fixed-point cosine and sine of the
    /// rotation angle, truncated back to fixed point.
    pub open spec fn rotated(self, c: int, s: int) -> Self {
        Vec2Model {
            x: tdiv(c * self.x - s * self.y, SCALE as int),
            y: tdiv(s * self.x + c * self.y, SCALE as int),
        }
    }

    /// Rotation by a rotor `(c, s)` without the fixed-point truncation: the
    /// exact image, carrying a factor of `SCALE` (or of the rotor's actual
    /// magnitude).  `rotated` is this image divided by `SCALE`, truncated.
    pub open spec fn rotated_exact(self, c: int, s: int) -> Self {
        Vec2Model { x: c * self.x - s * self.y, y: s * self.x + c * self.y }
    }

    /// Fixed-point normalization: scale the vector to length `SCALE`
    /// (one unit), leaving the zero vector unchanged.
    pub open spec fn normalized(self) -> Self {
        if self.norm_sq() == 0 {
            self
        } else {
            let l = sqrt_floor(self.norm_sq());
            Vec2Model { x: tdiv(self.x * SCALE, l), y: tdiv(self.y * SCALE, l) }
        }
    }

    /// Both coordinates within `[-b, b]`.
    pub open spec fn in_box(self, b: int) -> bool {
        -b <= self.x <= b && -b <= self.y <= b
    }
}

/// A normalized vector has coordinates of magnitude at most `SCALE`, and
/// normalizing the zero vector leaves it unchanged.
pub proof fn lemma_normalized_in_box(v: Vec2Model)
    ensures
        v.norm_sq() > 0 ==> v.normalized().in_box(SCALE as int),
        v.norm_sq() == 0 ==> v.normalized() == v,
{
    if v.norm_sq() > 0 {
        crate::math::lemma_sqrt_floor_exists(v.norm_sq());
        let l = sqrt_floor(v.norm_sq());
        assert(l >= 1);
        assert(-l <= v.x <= l && -l <= v.y <= l) by (nonlinear_arith)
            requires
                l >= 1,
                v.x * v.x + v.y * v.y < (l + 1) * (l + 1),
        ;
        lemma_mul_abs_bound(v.x, SCALE as int, l, SCALE as int);
        lemma_mul_abs_bound(v.y, SCALE as int, l, SCALE as int);
        crate::math::lemma_tdiv_in_range(v.x * SCALE, l, SCALE as int);
        crate::math::lemma_tdiv_in_range(v.y * SCALE, l, SCALE as int);
    }
}

/// Rotating by a rotor bounded by `SCALE` at most doubles the coordinate
/// box.
pub proof fn lemma_rotated_in_box(v: Vec2Model, c: int, s: int, b: int)
    requires
        v.in_box(b),
        0 <= b,
        -(SCALE as int) <= c <= SCALE as int,
        -(SCALE as int) <= s <= SCALE as int,
    ensures
        v.rotated(c, s).in_box(2 * b),
{
    lemma_mul_abs_bound(c, v.x, SCALE as int, b);
    lemma_mul_abs_bound(c, v.y, SCALE as int, b);
    lemma_mul_abs_bound(s, v.x, SCALE as int, b);
    lemma_mul_abs_bound(s, v.y, SCALE as int, b);
    crate::math::lemma_tdiv_in_range(c * v.x - s * v.y, SCALE as int, 2 * b);
    crate::math::lemma_tdiv_in_range(s * v.x + c * v.y, SCALE as int, 2 * b);
}

/// A quarter turn is exact: the rotor `(0, SCALE)` sends `(x, y)` to
/// `(-y, x)` and the rotor `(0, -SCALE)` sends it to `(y, -x)`.
pub proof fn lemma_quarter_turn(v: Vec2Model)
    ensures
        v.rotated(0, SCALE as int) == (Vec2Model { x: -v.y, y: v.x }),
        v.rotated(0, -(SCALE as int)) == (Vec2Model { x: v.y, y: -v.x }),
{
    lemma_scale_cancel(v.x);
    lemma_scale_cancel(v.y);
    lemma_scale_cancel(-v.x);
    lemma_scale_cancel(-v.y);
}

/// `tdiv(SCALE * a, SCALE) == a`: scaling by the fixed-point unit and
/// dividing back is the identity.
pub proof fn lemma_scale_cancel(a: int)
    ensures
        tdiv(SCALE as int * a, SCALE as int) == a,
{
    if a >= 0 {
        vstd::arithmetic::div_mod::lemma_div_by_multiple(a, SCALE as int);
        vstd::arithmetic::mul::lemma_mul_is_commutative(a, SCALE as int);
    } else {
        vstd::arithmetic::div_mod::lemma_div_by_multiple(-a, SCALE as int);
        vstd::arithmetic::mul::lemma_mul_is_commutative(-a, SCALE as int);
        assert(-(SCALE as int * a) == (-a) * (SCALE as int)) by (nonlinear_arith);
    }
}


/// Rotating by the rotor `(c, s)` and back by `(c, -s)` returns the exact
/// (undivided) image of `v` scaled by `c² + s²`: for a rotor of magnitude
/// exactly `SCALE` the round trip reproduces `v` at scale `SCALE²`, so the
/// only loss in the fixed-point round trip is the two truncating divisions.
pub proof fn lemma_rotation_round_trip(v: Vec2Model, c: int, s: int)
    ensures
        v.rotated_exact(c, s).rotated_exact(c, -s) == (Vec2Model {
            x: (c * c + s * s) * v.x,
            y: (c * c + s * s) * v.y,
        }),
{
    let wx = c * v.x - s * v.y;
    let wy = s * v.x + c * v.y;
    assert(v.rotated_exact(c, s) == (Vec2Model { x: wx, y: wy }));
    assert(v.rotated_exact(c, s).rotated_exact(c, -s) == (Vec2Model {
        x: c * wx - (-s) * wy,
        y: (-s) * wx + c * wy,
    }));
    assert(c * wx - (-s) * wy == (c * c + s * s) * v.x) by (nonlinear_arith)
        requires
            wx == c * v.x - s * v.y,
            wy == s * v.x + c * v.y,
    ;
    assert((-s) * wx + c * wy == (c * c + s * s) * v.y) by (nonlinear_arith)
        requires
            wx == c * v.x - s * v.y,
            wy == s * v.x + c * v.y,
    ;
}

/// A quarter turn and back is exact even in fixed point: no truncation
/// occurs, and `v` returns unchanged.
pub proof fn lemma_quarter_turn_round_trip(v: Vec2Model)
    ensures
        v.rotated(0, SCALE as int).rotated(0, -(SCALE as int)) == v,
        v.rotated(0, -(SCALE as int)).rotated(0, SCALE as int) == v,
{
    lemma_quarter_turn(v);
    lemma_quarter_turn(v.rotated(0, SCALE as int));
    lemma_quarter_turn(v.rotated(0, -(SCALE as int)));
}


/// The fixed-point rotation round trip with a real rotor: for a rotor
/// `(c, s)` quantized from a unit vector (`SCALE² − 3·SCALE < c² + s² ≤
/// SCALE²`), rotating and rotating back moves each coordinate of `v` by at
/// most `3·(b + SCALE) / SCALE` milli-units, stated here multiplied
/// through by `SCALE²`.  The loss is the three truncating divisions plus
/// the rotor's own quantization.
pub proof fn lemma_rotation_round_trip_truncated(v: Vec2Model, c: int, s: int, b: int)
    requires
        v.in_box(b),
        0 <= b,
        -(SCALE as int) <= c <= SCALE as int,
        -(SCALE as int) <= s <= SCALE as int,
        (SCALE as int) * (SCALE as int) - 3 * SCALE < c * c + s * s,
        c * c + s * s <= (SCALE as int) * (SCALE as int),
    ensures
        -(3 * (SCALE as int) * (b + SCALE)) <= (SCALE as int) * ((SCALE as int) * (v.rotated(
            c,
            s,
        ).rotated(c, -s).x - v.x)),
        (SCALE as int) * ((SCALE as int) * (v.rotated(c, s).rotated(c, -s).x - v.x)) <= 3 * (
        SCALE as int) * (b + SCALE),
        -(3 * (SCALE as int) * (b + SCALE)) <= (SCALE as int) * ((SCALE as int) * (v.rotated(
            c,
            s,
        ).rotated(c, -s).y - v.y)),
        (SCALE as int) * ((SCALE as int) * (v.rotated(c, s).rotated(c, -s).y - v.y)) <= 3 * (
        SCALE as int) * (b + SCALE),
{
    let sc: int = SCALE as int;
    let w = v.rotated(c, s);
    let u = w.rotated(c, -s);
    crate::math::lemma_tdiv_mul_bounds(c * v.x - s * v.y, sc);
    crate::math::lemma_tdiv_mul_bounds(s * v.x + c * v.y, sc);
    crate::math::lemma_tdiv_mul_bounds(c * w.x - (-s) * w.y, sc);
    crate::math::lemma_tdiv_mul_bounds((-s) * w.x + c * w.y, sc);
    let e1 = (c * v.x - s * v.y) - sc * w.x;
    let e2 = (s * v.x + c * v.y) - sc * w.y;
    let e3 = (c * w.x - (-s) * w.y) - sc * u.x;
    let e4 = ((-s) * w.x + c * w.y) - sc * u.y;
    assert(-sc < e1 < sc && -sc < e2 < sc && -sc < e3 < sc && -sc < e4 < sc);
    // distribute the outer SCALE over the second pass, one product at a time
    assert(sc * (sc * u.x) == sc * (c * w.x) - sc * ((-s) * w.y) - sc * e3) by (nonlinear_arith)
        requires
            sc * u.x == (c * w.x - (-s) * w.y) - e3,
    ;
    assert(sc * (sc * u.y) == sc * ((-s) * w.x) + sc * (c * w.y) - sc * e4) by (nonlinear_arith)
        requires
            sc * u.y == ((-s) * w.x + c * w.y) - e4,
    ;
    assert(sc * (c * w.x) == c * (sc * w.x) && sc * ((-s) * w.y) == (-s) * (sc * w.y) && sc * ((
    -s) * w.x) == (-s) * (sc * w.x) && sc * (c * w.y) == c * (sc * w.y)) by (nonlinear_arith);
    // substitute the first pass and distribute the rotor over it
    assert(c * (sc * w.x) == c * (c * v.x - s * v.y) - c * e1) by (nonlinear_arith)
        requires
            sc * w.x == (c * v.x - s * v.y) - e1,
    ;
    assert((-s) * (sc * w.y) == (-s) * (s * v.x + c * v.y) - (-s) * e2) by (nonlinear_arith)
        requires
            sc * w.y == (s * v.x + c * v.y) - e2,
    ;
    assert((-s) * (sc * w.x) == (-s) * (c * v.x - s * v.y) - (-s) * e1) by (nonlinear_arith)
        requires
            sc * w.x == (c * v.x - s * v.y) - e1,
    ;
    assert(c * (sc * w.y) == c * (s * v.x + c * v.y) - c * e2) by (nonlinear_arith)
        requires
            sc * w.y == (s * v.x + c * v.y) - e2,
    ;
    // the exact round-trip identity
    assert(c * (c * v.x - s * v.y) - (-s) * (s * v.x + c * v.y) == (c * c + s * s) * v.x)
        by (nonlinear_arith);
    assert((-s) * (c * v.x - s * v.y) + c * (s * v.x + c * v.y) == (c * c + s * s) * v.y)
        by (nonlinear_arith);
    // split off the rotor's quantization defect
    let q = (c * c + s * s) - sc * sc;
    assert((c * c + s * s) * v.x == q * v.x + sc * (sc * v.x) && (c * c + s * s) * v.y == q * v.y
        + sc * (sc * v.y)) by (nonlinear_arith)
        requires
            q == (c * c + s * s) - sc * sc,
    ;
    // bound every error atom
    lemma_mul_abs_bound(q, v.x, 3 * sc, b);
    lemma_mul_abs_bound(q, v.y, 3 * sc, b);
    lemma_mul_abs_bound(c, e1, sc, sc);
    lemma_mul_abs_bound(-s, e2, sc, sc);
    lemma_mul_abs_bound(-s, e1, sc, sc);
    lemma_mul_abs_bound(c, e2, sc, sc);
    lemma_mul_abs_bound(sc, e3, sc, sc);
    lemma_mul_abs_bound(sc, e4, sc, sc);
    assert(3 * sc * (b + sc) == (3 * sc) * b + 3 * (sc * sc)) by (nonlinear_arith);
    assert(sc * (sc * u.x) - sc * (sc * v.x) == q * v.x - c * e1 + (-s) * e2 - sc * e3);
    assert(sc * (sc * u.y) - sc * (sc * v.y) == q * v.y - (-s) * e1 - c * e2 - sc * e4);
    assert(sc * (sc * (u.x - v.x)) == sc * (sc * u.x) - sc * (sc * v.x)) by (nonlinear_arith);
    assert(sc * (sc * (u.y - v.y)) == sc * (sc * u.y) - sc * (sc * v.y)) by (nonlinear_arith);
}

/// A vector that already has unit length in fixed point (squared norm in
/// `[SCALE², (SCALE+1)²)`) is left exactly unchanged by normalization, so
/// such vectors are fixed points of `normalized`.
pub proof fn lemma_normalized_fixed_point(v: Vec2Model)
    requires
        (SCALE as int) * (SCALE as int) <= v.norm_sq() < (SCALE as int + 1) * (SCALE as int + 1),
    ensures
        v.normalized() == v,
{
    crate::math::lemma_sqrt_floor_exists(v.norm_sq());
    let l = sqrt_floor(v.norm_sq());
    crate::math::lemma_sqrt_floor_unique(v.norm_sq(), l, SCALE as int);
    lemma_scale_cancel(v.x);
    lemma_scale_cancel(v.y);
    assert(v.x * SCALE == SCALE as int * v.x) by (nonlinear_arith);
    assert(v.y * SCALE == SCALE as int * v.y) by (nonlinear_arith);
}


/// Fixed-point normalization of a vector at least one unit long yields a
/// vector of unit length up to truncation: its squared norm lies within
/// `[SCALE² − 4·SCALE, (SCALE + 1)²]`, a relative error of well under one
/// percent of a unit.
pub proof fn lemma_normalized_band(v: Vec2Model)
    requires
        v.norm_sq() >= (SCALE as int) * (SCALE as int),
    ensures
        (SCALE as int) * (SCALE as int) - 4 * SCALE <= v.normalized().norm_sq(),
        v.normalized().norm_sq() <= (SCALE as int + 1) * (SCALE as int + 1),
{
    let sc: int = SCALE as int;
    let n = v.norm_sq();
    crate::math::lemma_sqrt_floor_exists(n);
    let l = sqrt_floor(n);
    assert(l >= sc) by (nonlinear_arith)
        requires
            l >= 0,
            n < (l + 1) * (l + 1),
            n >= sc * sc,
            sc >= 1,
    ;
    assert(-l <= v.x <= l && -l <= v.y <= l) by (nonlinear_arith)
        requires
            l >= 1,
            v.x * v.x + v.y * v.y < (l + 1) * (l + 1),
    ;
    let qx = tdiv(v.x * sc, l);
    let qy = tdiv(v.y * sc, l);
    crate::math::lemma_tdiv_mul_bounds(v.x * sc, l);
    crate::math::lemma_tdiv_mul_bounds(v.y * sc, l);
    // squared, each scaled coordinate is within one divisor of the exact
    // quotient and no farther from zero
    assert((l * qx) * (l * qx) <= (v.x * sc) * (v.x * sc) && (l * qx) * (l * qx) >= (v.x * sc) * (
    v.x * sc) - 2 * (l * l) * sc) by (nonlinear_arith)
        requires
            l >= 1,
            sc >= 1,
            -l <= v.x <= l,
            qx == tdiv(v.x * sc, l),
            v.x * sc >= 0 ==> l * qx <= v.x * sc < l * qx + l,
            v.x * sc < 0 ==> l * qx - l < v.x * sc <= l * qx,
    ;
    assert((l * qy) * (l * qy) <= (v.y * sc) * (v.y * sc) && (l * qy) * (l * qy) >= (v.y * sc) * (
    v.y * sc) - 2 * (l * l) * sc) by (nonlinear_arith)
        requires
            l >= 1,
            sc >= 1,
            -l <= v.y <= l,
            qy == tdiv(v.y * sc, l),
            v.y * sc >= 0 ==> l * qy <= v.y * sc < l * qy + l,
            v.y * sc < 0 ==> l * qy - l < v.y * sc <= l * qy,
    ;
    // sum the two coordinates and relate to n
    assert(l * l * (qx * qx + qy * qy) == (l * qx) * (l * qx) + (l * qy) * (l * qy))
        by (nonlinear_arith);
    assert((v.x * sc) * (v.x * sc) + (v.y * sc) * (v.y * sc) == n * (sc * sc))
        by (nonlinear_arith)
        requires
            n == v.x * v.x + v.y * v.y,
    ;
    assert(l * l * (qx * qx + qy * qy) <= n * (sc * sc));
    assert(l * l * (qx * qx + qy * qy) >= n * (sc * sc) - 4 * (l * l) * sc);
    // upper bound: l² (qx² + qy²) < (l+1)² sc² ≤ l² (sc+1)²
    assert(qx * qx + qy * qy <= (sc + 1) * (sc + 1)) by (nonlinear_arith)
        requires
            l >= sc,
            sc >= 1,
            l * l * (qx * qx + qy * qy) <= n * (sc * sc),
            n < (l + 1) * (l + 1),
    ;
    // lower bound: n ≥ l², so l² (qx² + qy²) ≥ l² (sc² − 4 sc)
    assert(qx * qx + qy * qy >= sc * sc - 4 * sc) by (nonlinear_arith)
        requires
            l >= 1,
            sc >= 1,
            l * l * (qx * qx + qy * qy) >= n * (sc * sc) - 4 * (l * l) * sc,
            n >= l * l,
    ;
    assert(v.normalized().norm_sq() == qx * qx + qy * qy);
}


/// Normalization is idempotent up to truncation: normalizing an already
/// normalized vector (of any vector at least one unit long) moves each
/// coordinate by at most 4 milli-units.  It is not exactly idempotent —
/// the truncated square root of the first pass can land a fraction below
/// one unit, and the second pass then stretches by up to that fraction.
pub proof fn lemma_normalized_almost_idempotent(v: Vec2Model)
    requires
        v.norm_sq() >= (SCALE as int) * (SCALE as int),
    ensures
        -4 <= v.normalized().normalized().x - v.normalized().x <= 4,
        -4 <= v.normalized().normalized().y - v.normalized().y <= 4,
{
    let sc: int = SCALE as int;
    lemma_normalized_band(v);
    lemma_normalized_in_box(v);
    let w = v.normalized();
    assert(w.norm_sq() > 0);
    crate::math::lemma_sqrt_floor_exists(w.norm_sq());
    let l = sqrt_floor(w.norm_sq());
    assert(997 <= l <= 1001) by (nonlinear_arith)
        requires
            l >= 0,
            l * l <= w.norm_sq() < (l + 1) * (l + 1),
            sc * sc - 4 * sc <= w.norm_sq() <= (sc + 1) * (sc + 1),
            sc == 1000,
    ;
    let qx = tdiv(w.x * sc, l);
    let qy = tdiv(w.y * sc, l);
    crate::math::lemma_tdiv_mul_bounds(w.x * sc, l);
    crate::math::lemma_tdiv_mul_bounds(w.y * sc, l);
    assert(-4 <= qx - w.x <= 4) by (nonlinear_arith)
        requires
            997 <= l <= 1001,
            -1000 <= w.x <= 1000,
            sc == 1000,
            w.x * sc >= 0 ==> l * qx <= w.x * sc < l * qx + l,
            w.x * sc < 0 ==> l * qx - l < w.x * sc <= l * qx,
    ;
    assert(-4 <= qy - w.y <= 4) by (nonlinear_arith)
        requires
            997 <= l <= 1001,
            -1000 <= w.y <= 1000,
            sc == 1000,
            w.y * sc >= 0 ==> l * qy <= w.y * sc < l * qy + l,
            w.y * sc < 0 ==> l * qy - l < w.y * sc <= l * qy,
    ;
}

/// A 2D vector with fixed-point coordinates in milli-units.
#[derive(Clone, Copy, PartialEq, Eq, Structural, Debug)]
pub struct Vec2 {
    pub x: i64,
    pub y: i64,
}

impl View for Vec2 {
    type V = Vec2Model;

    open spec fn view(&self) -> Vec2Model {
        Vec2Model { x: self.x as int, y: self.y as int }
    }
}

/// Coordinate bound under which every operation in this crate is free of
/// overflow: 2^36 milli-units, far beyond any on-screen coordinate.
pub const COORD_LIMIT: i64 = 0x10_0000_0000;

impl Vec2 {
    pub fn new(x: i64, y: i64) -> (r: Self)
        ensures
            r@ == (Vec2Model { x: x as int, y: y as int }),
    {
        Vec2 { x, y }
    }

    pub fn plus(&self, o: &Vec2) -> (r: Vec2)
        requires
            self@.in_box(COORD_LIMIT as int),
            o@.in_box(COORD_LIMIT as int),
        ensures
            r@ == self@.plus(o@),
    {
        Vec2 { x: self.x + o.x, y: self.y + o.y }
    }

    pub fn minus(&self, o: &Vec2) -> (r: Vec2)
        requires
            self@.in_box(COORD_LIMIT as int),
            o@.in_box(COORD_LIMIT as int),
        ensures
            r@ == self@.minus(o@),
    {
        Vec2 { x: self.x - o.x, y: self.y - o.y }
    }

    /// Scale by the fixed-point factor `k`.
    pub fn scaled_by(&self, k: i64) -> (r: Vec2)
        requires
            self@.in_box(COORD_LIMIT as int),
            -COORD_LIMIT <= k <= COORD_LIMIT,
        ensures
            r@ == self@.scaled_by(k as int),
    {
        proof {
            lemma_mul_abs_bound(self@.x, k as int, COORD_LIMIT as int, COORD_LIMIT as int);
            lemma_mul_abs_bound(self@.y, k as int, COORD_LIMIT as int, COORD_LIMIT as int);
        }
        let x: i64 = tdiv_i128((self.x as i128) * (k as i128), SCALE);
        let y: i64 = tdiv_i128((self.y as i128) * (k as i128), SCALE);
        Vec2 { x, y }
    }

    /// Squared Euclidean length in squared milli-units; exact.
    pub fn norm_sq(&self) -> (r: i128)
        requires
            self@.in_box(COORD_LIMIT as int),
        ensures
            r == self@.norm_sq(),
    {
        proof {
            lemma_mul_abs_bound(self@.x, self@.x, COORD_LIMIT as int, COORD_LIMIT as int);
            lemma_mul_abs_bound(self@.y, self@.y, COORD_LIMIT as int, COORD_LIMIT as int);
        }
        (self.x as i128) * (self.x as i128) + (self.y as i128) * (self.y as i128)
    }

    pub fn dot(&self, o: &Vec2) -> (r: i128)
        requires
            self@.in_box(COORD_LIMIT as int),
            o@.in_box(COORD_LIMIT as int),
        ensures
            r == self@.dot(o@),
    {
        proof {
            lemma_mul_abs_bound(self@.x, o@.x, COORD_LIMIT as int, COORD_LIMIT as int);
            lemma_mul_abs_bound(self@.y, o@.y, COORD_LIMIT as int, COORD_LIMIT as int);
        }
        (self.x as i128) * (o.x as i128) + (self.y as i128) * (o.y as i128)
    }

    pub fn cross(&self, o: &Vec2) -> (r: i128)
        requires
            self@.in_box(COORD_LIMIT as int),
            o@.in_box(COORD_LIMIT as int),
        ensures
            r == self@.cross(o@),
    {
        proof {
            lemma_mul_abs_bound(self@.x, o@.y, COORD_LIMIT as int, COORD_LIMIT as int);
            lemma_mul_abs_bound(self@.y, o@.x, COORD_LIMIT as int, COORD_LIMIT as int);
        }
        (self.x as i128) * (o.y as i128) - (self.y as i128) * (o.x as i128)
    }

    /// Rotate by the rotor `(c, s)`: the fixed-point cosine and sine of the
    /// rotation angle (counter-clockwise for a positive angle under the
    /// screen's y-down convention).
    pub fn rotated(&self, c: i64, s: i64) -> (r: Vec2)
        requires
            self@.in_box(COORD_LIMIT as int),
            -2 * SCALE <= c <= 2 * SCALE,
            -2 * SCALE <= s <= 2 * SCALE,
        ensures
            r@ == self@.rotated(c as int, s as int),
    {
        proof {
            lemma_mul_abs_bound(c as int, self@.x, 2 * SCALE as int, COORD_LIMIT as int);
            lemma_mul_abs_bound(c as int, self@.y, 2 * SCALE as int, COORD_LIMIT as int);
            lemma_mul_abs_bound(s as int, self@.x, 2 * SCALE as int, COORD_LIMIT as int);
            lemma_mul_abs_bound(s as int, self@.y, 2 * SCALE as int, COORD_LIMIT as int);
        }
        let cx: i128 = (c as i128) * (self.x as i128);
        let cy: i128 = (c as i128) * (self.y as i128);
        let sx: i128 = (s as i128) * (self.x as i128);
        let sy: i128 = (s as i128) * (self.y as i128);
        let x: i64 = tdiv_i128(cx - sy, SCALE);
        let y: i64 = tdiv_i128(sx + cy, SCALE);
        Vec2 { x, y }
    }

    /// Fixed-point normalization: returns the vector scaled to length
    /// `SCALE` (one unit), or the vector itself if it is zero.
    pub fn normalized(&self) -> (r: Vec2)
        requires
            self@.in_box(0x8000_0000),
        ensures
            r@ == self@.normalized(),
    {
        proof {
            lemma_mul_abs_bound(self@.x, self@.x, 0x8000_0000, 0x8000_0000);
            lemma_mul_abs_bound(self@.y, self@.y, 0x8000_0000, 0x8000_0000);
            assert(self@.x * self@.x >= 0 && self@.y * self@.y >= 0) by (nonlinear_arith);
        }
        let n: i128 = self.norm_sq();
        if n == 0 {
            *self
        } else {
            assert(0 < n <= 0x8000_0000_0000_0000);
            assert((n as u64) as int == n as int);
            let l: u64 = isqrt(n as u64);
            proof {
                assert(l >= 1);
                lemma_mul_abs_bound(self@.x, SCALE as int, 0x8000_0000, SCALE as int);
                lemma_mul_abs_bound(self@.y, SCALE as int, 0x8000_0000, SCALE as int);
                vstd::arithmetic::mul::lemma_mul_left_inequality(
                    0x7FFF_FFFF_FFFF_FFFF,
                    1,
                    l as int,
                );
            }
            let x: i64 = tdiv_i128((self.x as i128) * (SCALE as i128), l as i64);
            let y: i64 = tdiv_i128((self.y as i128) * (SCALE as i128), l as i64);
            Vec2 { x, y }
        }
    }
}

} // verus!
