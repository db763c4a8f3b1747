//! One circular body segment: a link of the articulated chain.
//!
//! A segment has a radius, a signed binding offset, a center position and a
//! heading direction, all in fixed-point milli-units.  `show_center` is a
//! purely visual marker carried through unchanged.

use vstd::prelude::*;

verus! {

use crate::math::SCALE;
use crate::vec2::{Vec2, Vec2Model, COORD_LIMIT};

/// Largest radius or offset magnitude the chain arithmetic admits
/// (2^17 milli-units, about 131 screen units).
pub const RADIUS_LIMIT: i64 = 0x2_0000;

/// Largest position coordinate under which a whole propagation pass stays
/// within safe arithmetic bounds (2^29 milli-units).
pub const POS_LIMIT: i64 = 0x2000_0000;

/// Mathematical model of a segment.
pub ghost struct CircleModel {
    pub radius: int,
    pub offset: int,
    pub position: Vec2Model,
    pub direction: Vec2Model,
    pub show_center: bool,
}

impl CircleModel {
    /// Radius positive, radius and offset small enough for the propagation
    /// arithmetic.
    pub open spec fn params_ok(self) -> bool {
        &&& 0 < self.radius <= RADIUS_LIMIT as int
        &&& -(RADIUS_LIMIT as int) <= self.offset <= RADIUS_LIMIT as int
    }

    /// The segment turned so that its direction points from its center
    /// toward `target` (unnormalized: the magnitude is the distance).
    pub open spec fn aimed_at(self, target: Vec2Model) -> CircleModel {
        CircleModel { direction: target.minus(self.position), ..self }
    }

    /// The segment with its direction normalized to one unit of length
    /// (left unchanged if the direction is zero).
    pub open spec fn direction_normalized(self) -> CircleModel {
        CircleModel { direction: self.direction.normalized(), ..self }
    }

    /// The segment placed behind `target` along its own direction, at a
    /// separation of `dist` plus the segment's own offset.
    pub open spec fn bound_to(self, target: Vec2Model, dist: int) -> CircleModel {
        CircleModel {
            position: target.minus(self.direction.scaled_by(dist + self.offset)),
            ..self
        }
    }
}

/// One circular segment of the body.
#[derive(Clone, Copy, PartialEq, Eq, Structural, Debug)]
pub struct Circle {
    pub radius: i64,
    pub offset: i64,
    pub position: Vec2,
    pub direction: Vec2,
    pub show_center: bool,
}

impl View for Circle {
    type V = CircleModel;

    open spec fn view(&self) -> CircleModel {
        CircleModel {
            radius: self.radius as int,
            offset: self.offset as int,
            position: self.position@,
            direction: self.direction@,
            show_center: self.show_center,
        }
    }
}

impl Default for Circle {
    /// A segment of radius 25 units at the origin, heading left.
    fn default() -> (c: Self)
        ensures
            c@ == (CircleModel {
                radius: 25 * SCALE as int,
                offset: 0,
                position: Vec2Model { x: 0, y: 0 },
                direction: Vec2Model { x: -(SCALE as int), y: 0 },
                show_center: false,
            }),
    {
        Circle {
            radius: 25 * SCALE,
            offset: 0,
            position: Vec2 { x: 0, y: 0 },
            direction: Vec2 { x: -SCALE, y: 0 },
            show_center: false,
        }
    }
}

impl Circle {
    pub fn set_radius(&mut self, radius: i64)
        ensures
            final(self)@ == (CircleModel { radius: radius as int, ..old(self)@ }),
    {
        self.radius = radius;
    }

    pub fn set_offset(&mut self, offset: i64)
        ensures
            final(self)@ == (CircleModel { offset: offset as int, ..old(self)@ }),
    {
        self.offset = offset;
    }

    /// Replace either position coordinate; a `None` leaves that coordinate
    /// unchanged.
    pub fn set_position(&self, x_position: Option<i64>, y_position: Option<i64>) -> (r: Circle)
        ensures
            r@ == (CircleModel {
                position: Vec2Model {
                    x: if x_position is Some { x_position->0 as int } else { self@.position.x },
                    y: if y_position is Some { y_position->0 as int } else { self@.position.y },
                },
                ..self@
            }),
    {
        let mut circle: Circle = *self;
        circle.position.x = match x_position {
            Some(x) => x,
            None => self.position.x,
        };
        circle.position.y = match y_position {
            Some(y) => y,
            None => self.position.y,
        };
        circle
    }

    /// Point the direction vector toward `target`; the magnitude of the new
    /// direction is the distance to the target.
    pub fn set_target(&mut self, target: &Vec2)
        requires
            old(self)@.position.in_box(COORD_LIMIT as int),
            target@.in_box(COORD_LIMIT as int),
        ensures
            final(self)@ == old(self)@.aimed_at(target@),
    {
        self.direction = target.minus(&self.position);
    }

    /// Normalize the direction vector to one unit of length; a zero
    /// direction is left unchanged rather than divided by zero.
    pub fn normalize_direction(&mut self)
        requires
            old(self)@.direction.in_box(0x8000_0000),
        ensures
            final(self)@ == old(self)@.direction_normalized(),
    {
        self.direction = self.direction.normalized();
    }

    /// Place this segment's center so that its direction points at `target`
    /// from a separation of `distance` plus the segment's own offset.
    pub fn bound_to_target(&mut self, target: &Vec2, distance: i64)
        requires
            old(self)@.direction.in_box(2 * SCALE as int),
            target@.in_box(2 * POS_LIMIT as int),
            -RADIUS_LIMIT <= distance <= RADIUS_LIMIT,
            -RADIUS_LIMIT <= old(self)@.offset <= RADIUS_LIMIT,
        ensures
            final(self)@ == old(self)@.bound_to(target@, distance as int),
    {
        let step: Vec2 = self.direction.scaled_by(distance + self.offset);
        proof {
            crate::math::lemma_mul_abs_bound(
                old(self)@.direction.x,
                distance + self.offset,
                2 * SCALE as int,
                2 * RADIUS_LIMIT as int,
            );
            crate::math::lemma_mul_abs_bound(
                old(self)@.direction.y,
                distance + self.offset,
                2 * SCALE as int,
                2 * RADIUS_LIMIT as int,
            );
            crate::math::lemma_tdiv_in_range(
                old(self)@.direction.x * (distance + self.offset),
                SCALE as int,
                4 * RADIUS_LIMIT as int,
            );
            crate::math::lemma_tdiv_in_range(
                old(self)@.direction.y * (distance + self.offset),
                SCALE as int,
                4 * RADIUS_LIMIT as int,
            );
        }
        self.position = target.minus(&step);
    }

    /// The point on the segment's circumference in the direction `dir`
    /// (given as a unit fixed-point vector).
    pub fn point_on_circle(&self, dir: &Vec2) -> (r: Vec2)
        requires
            self@.position.in_box(2 * POS_LIMIT as int),
            dir@.in_box(2 * SCALE as int),
            0 <= self.radius <= RADIUS_LIMIT,
        ensures
            r@ == self@.position.plus(dir@.scaled_by(self@.radius)),
    {
        proof {
            crate::math::lemma_mul_abs_bound(
                dir@.x,
                self@.radius,
                2 * SCALE as int,
                RADIUS_LIMIT as int,
            );
            crate::math::lemma_mul_abs_bound(
                dir@.y,
                self@.radius,
                2 * SCALE as int,
                RADIUS_LIMIT as int,
            );
            crate::math::lemma_tdiv_in_range(
                dir@.x * self@.radius,
                SCALE as int,
                2 * RADIUS_LIMIT as int,
            );
            crate::math::lemma_tdiv_in_range(
                dir@.y * self@.radius,
                SCALE as int,
                2 * RADIUS_LIMIT as int,
            );
        }
        self.position.plus(&dir.scaled_by(self.radius))
    }
}

} // verus!
