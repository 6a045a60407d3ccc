//! Collision resolution between the player's ball and one static box.
//!
//! A ball that reaches into a box is pushed out along one axis only: the
//! axis on which its center is farthest from the nearest point of the box.
//! The push is that axis's component of the penetration vector, rounded
//! toward zero, so that the ball never ends farther from the box than its
//! radius.

use crate::geometry::{square, BoundingBox, Sphere, Vec3, COORD_LIMIT};
use crate::player::Player;
use crate::scalar::{
    floor_sqrt, integer_sqrt, is_floor_sqrt, lemma_floor_sqrt_exists, lemma_floor_sqrt_is, magnitude,
};
use vstd::prelude::*;

verus! {

/// A coordinate axis.
#[derive(Clone, Copy, Debug, PartialEq, Eq, Structural)]
pub enum Axis {
    X,
    Y,
    Z,
}

/// The correction that frees a ball from a box.
#[derive(Clone, Copy, Debug, PartialEq, Eq, Structural)]
pub struct Contact {
    /// The axis along which the ball is moved.
    pub axis: Axis,
    /// The signed distance by which it is moved.
    pub push: i32,
}

/// The axis with the largest magnitude among the three components of a
/// displacement. X wins a tie with Y or Z, and Y wins a tie with Z.
pub open spec fn dominant_axis(dx: int, dy: int, dz: int) -> Axis {
    if magnitude(dx) >= magnitude(dy) && magnitude(dx) >= magnitude(dz) {
        Axis::X
    } else if magnitude(dy) >= magnitude(dz) {
        Axis::Y
    } else {
        Axis::Z
    }
}

/// The component of a displacement on an axis.
pub open spec fn component(axis: Axis, dx: int, dy: int, dz: int) -> int {
    match axis {
        Axis::X => dx,
        Axis::Y => dy,
        Axis::Z => dz,
    }
}

/// The sum of the squares of the two components of a displacement that do
/// not lie on an axis.
pub open spec fn others_squared(axis: Axis, dx: int, dy: int, dz: int) -> int {
    match axis {
        Axis::X => dy * dy + dz * dz,
        Axis::Y => dx * dx + dz * dz,
        Axis::Z => dx * dx + dy * dy,
    }
}

/// How far from the box the center comes to lie on the axis of a
/// correction: the magnitude of one component of the displacement from the
/// box to the center, once the displacement, whose squared length is `d2`,
/// has been stretched to the length of the radius. It is
/// `|offset| * radius / sqrt(d2)`, rounded down.
pub open spec fn reach_along(offset: int, radius: int, d2: int) -> int
    recommends
        0 < d2,
{
    floor_sqrt(((offset * offset) * (radius * radius)) / d2)
}

/// One component of the penetration vector: the unit vector from the box
/// to the center of the ball times the depth `radius - sqrt(d2)` by which
/// the ball reaches in, rounded toward zero.
pub open spec fn push_along(offset: int, radius: int, d2: int) -> int
    recommends
        0 < d2,
{
    if offset >= 0 {
        reach_along(offset, radius, d2) - offset
    } else {
        -reach_along(offset, radius, d2) - offset
    }
}

/// The correction for a ball and a box: none where the ball is clear of the
/// box, and none where its center lies in the box, where the direction out
/// is undefined.
pub open spec fn contact_of(s: Sphere, b: BoundingBox) -> Option<Contact> {
    let dx = b.offset_x(s.center);
    let dy = b.offset_y(s.center);
    let dz = b.offset_z(s.center);
    let d2 = b.distance_squared(s.center);
    if 0 < d2 < s.radius * s.radius {
        let axis = dominant_axis(dx, dy, dz);
        Some(Contact { axis, push: push_along(component(axis, dx, dy, dz), s.radius as int, d2) as i32 })
    } else {
        None
    }
}

/// The player after a correction has been applied: moved along the
/// correction's axis, with the velocity on that axis gone. A vertical
/// correction is a landing and clears the jump count.
pub open spec fn corrected(p: Player, c: Contact) -> Player {
    match c.axis {
        Axis::X => Player {
            position: Vec3 { x: (p.position.x + c.push) as i32, ..p.position },
            velocity: Vec3 { x: 0, ..p.velocity },
            ..p
        },
        Axis::Y => Player {
            position: Vec3 { y: (p.position.y + c.push) as i32, ..p.position },
            velocity: Vec3 { y: 0, ..p.velocity },
            jump_count: 0,
            ..p
        },
        Axis::Z => Player {
            position: Vec3 { z: (p.position.z + c.push) as i32, ..p.position },
            velocity: Vec3 { z: 0, ..p.velocity },
            ..p
        },
    }
}

/// The player after collision with one box has been resolved.
pub open spec fn resolved(p: Player, b: BoundingBox) -> Player {
    match contact_of(p.shape(), b) {
        Some(c) => corrected(p, c),
        None => p,
    }
}

/// A squared length is the square on one axis and the squares on the two
/// others.
pub proof fn lemma_split_squares(axis: Axis, dx: int, dy: int, dz: int)
    ensures
        dx * dx + dy * dy + dz * dz == component(axis, dx, dy, dz) * component(axis, dx, dy, dz)
            + others_squared(axis, dx, dy, dz),
        others_squared(axis, dx, dy, dz) >= 0,
        dx == 0 ==> dx * dx == 0,
        dy == 0 ==> dy * dy == 0,
        dz == 0 ==> dz * dz == 0,
{
    assert(dx * dx >= 0 && dy * dy >= 0 && dz * dz >= 0) by (nonlinear_arith);
    assert(dx == 0 ==> dx * dx == 0) by (nonlinear_arith);
    assert(dy == 0 ==> dy * dy == 0) by (nonlinear_arith);
    assert(dz == 0 ==> dz * dz == 0) by (nonlinear_arith);
}

/// Stretching a displacement that is shorter than the radius to the length
/// of the radius: the component on one axis grows, but not past the
/// radius, and the whole, with the other components as they were, grows
/// too, but not past the radius either.
pub proof fn lemma_reach_bounds(offset: int, rest: int, radius: int)
    requires
        radius > 0,
        rest >= 0,
        0 < offset * offset + rest < radius * radius,
    ensures
        ({
            let d2 = offset * offset + rest;
            let t = reach_along(offset, radius, d2);
            &&& magnitude(offset) <= t <= radius
            &&& d2 <= t * t + rest <= radius * radius
        }),
{
    let o2 = offset * offset;
    let r2 = radius * radius;
    let d2 = o2 + rest;
    let n = o2 * r2;
    let q = n / d2;
    let m = magnitude(offset);
    assert(o2 == m * m && o2 >= 0) by (nonlinear_arith)
        requires
            o2 == offset * offset,
            m == offset || m == -offset,
    ;
    assert(q * d2 <= n < (q + 1) * d2) by (nonlinear_arith)
        requires
            q == n / d2,
            d2 > 0,
    ;
    assert(o2 * d2 <= n <= r2 * d2) by (nonlinear_arith)
        requires
            n == o2 * r2,
            0 <= o2 <= d2,
            0 < d2 < r2,
    ;
    assert(o2 <= q <= r2) by (nonlinear_arith)
        requires
            q * d2 <= n < (q + 1) * d2,
            o2 * d2 <= n <= r2 * d2,
            d2 > 0,
    ;
    lemma_floor_sqrt_exists(q);
    let t = floor_sqrt(q);
    if m > t {
        assert((t + 1) * (t + 1) <= m * m) by (nonlinear_arith)
            requires
                0 <= t,
                t + 1 <= m,
        ;
    }
    if t > radius {
        assert(t * t > r2) by (nonlinear_arith)
            requires
                t > radius > 0,
                r2 == radius * radius,
        ;
    }
    let tt = t * t;
    assert(tt >= o2) by (nonlinear_arith)
        requires
            0 <= m <= t,
            tt == t * t,
            o2 == m * m,
    ;
    assert(tt * d2 <= n) by (nonlinear_arith)
        requires
            0 <= tt <= q,
            q * d2 <= n,
            d2 > 0,
    ;
    assert(rest * d2 <= rest * r2 && n + rest * r2 == d2 * r2) by (nonlinear_arith)
        requires
            rest >= 0,
            d2 < r2,
            n == o2 * r2,
            d2 == o2 + rest,
    ;
    assert(tt + rest <= r2) by (nonlinear_arith)
        requires
            tt * d2 + rest * d2 <= d2 * r2,
            d2 > 0,
    ;
}

/// On one axis there is nothing to round: an offset that is the whole of
/// the displacement is stretched to the radius exactly.
pub proof fn lemma_reach_on_one_axis(offset: int, radius: int)
    requires
        offset != 0,
        radius > 0,
    ensures
        reach_along(offset, radius, offset * offset) == radius,
{
    let o2 = offset * offset;
    let r2 = radius * radius;
    assert(o2 > 0 && (o2 * r2) / o2 == r2) by (nonlinear_arith)
        requires
            offset != 0,
            o2 == offset * offset,
    ;
    assert(is_floor_sqrt(r2, radius)) by (nonlinear_arith)
        requires
            radius > 0,
            r2 == radius * radius,
    ;
    lemma_floor_sqrt_is(r2, radius);
}

/// The correction that frees the ball `s` from the box `b`, if it reaches
/// into it.
pub fn contact(s: &Sphere, b: &BoundingBox) -> (r: Option<Contact>)
    requires
        s.wf(),
        b.ordered(),
    ensures
        r == contact_of(*s, *b),
{
    let (dx, dy, dz) = b.offset(&s.center);
    let d2 = b.squared_distance(&s.center);
    let r2 = s.squared_radius();
    if d2 == 0 || d2 >= r2 {
        return None;
    }
    let ax = if dx < 0 { -dx } else { dx };
    let ay = if dy < 0 { -dy } else { dy };
    let az = if dz < 0 { -dz } else { dz };
    let (axis, along, size) = if ax >= ay && ax >= az {
        (Axis::X, dx, ax)
    } else if ay >= az {
        (Axis::Y, dy, ay)
    } else {
        (Axis::Z, dz, az)
    };
    let o2 = square(along);
    proof {
        let radius = s.radius as int;
        lemma_split_squares(axis, dx as int, dy as int, dz as int);
        lemma_reach_bounds(along as int, others_squared(axis, dx as int, dy as int, dz as int), radius);
        assert(r2 <= 1_000_000_000 * 1_000_000_000) by (nonlinear_arith)
            requires
                r2 == radius * radius,
                0 < radius <= 1_000_000_000,
        ;
        assert(o2 * r2 <= 1_000_000_000_000_000_000 * 1_000_000_000_000_000_000)
            by (nonlinear_arith)
            requires
                0 <= o2 <= 1_000_000_000_000_000_000,
                0 <= r2 <= 1_000_000_000_000_000_000,
        ;
    }
    let reach = integer_sqrt((o2 * r2) / d2);
    let push: i64 = if along >= 0 {
        reach as i64 - along
    } else {
        -(reach as i64) - along
    };
    Some(Contact { axis, push: push as i32 })
}

/// Resolves the collision of the player with one box: where the player's
/// ball reaches into the box, moves the player out along one axis and
/// stops its motion on that axis. The player is never moved toward the
/// box, and never farther from it than its radius.
pub fn handle_collision(p: &mut Player, b: &BoundingBox)
    requires
        old(p).wf(),
        b.wf(),
    ensures
        *final(p) == resolved(*old(p), *b),
        final(p).wf(),
        final(p).radius == old(p).radius,
        !old(p).shape().penetrates(*b) ==> *final(p) == *old(p),
        b.distance_squared(old(p).position) <= b.distance_squared(final(p).position),
        old(p).shape().penetrates(*b) ==> b.distance_squared(final(p).position) <= old(p).radius
            * old(p).radius,
{
    let s = p.sphere();
    match contact(&s, b) {
        None => {},
        Some(c) => {
            proof {
                lemma_resolution_stays_within_reach(*p, *b);
            }
            match c.axis {
                Axis::X => {
                    p.position.x = p.position.x + c.push;
                    p.velocity.x = 0;
                },
                Axis::Y => {
                    p.position.y = p.position.y + c.push;
                    p.velocity.y = 0;
                    p.jump_count = 0;
                },
                Axis::Z => {
                    p.position.z = p.position.z + c.push;
                    p.velocity.z = 0;
                },
            }
        },
    }
}

/// The three components of the displacement from a box to a point.
pub open spec fn offset_on(b: BoundingBox, at: Vec3, axis: Axis) -> int {
    component(axis, b.offset_x(at), b.offset_y(at), b.offset_z(at))
}

/// The squares of the two components of the displacement from a box to a
/// point that do not lie on an axis.
pub open spec fn offset_off(b: BoundingBox, at: Vec3, axis: Axis) -> int {
    others_squared(axis, b.offset_x(at), b.offset_y(at), b.offset_z(at))
}

/// A correction pushes outward and never past the tangent position. On the
/// correction's axis the center moves away from the box, to the distance
/// that the stretched displacement has on that axis; on the other axes it
/// stays; the nearest point of the box is the same as before. So the
/// distance from the box to the center does not shrink and does not pass
/// the radius. The corrected coordinate lies within one radius of the box
/// and so within the range of a scalar.
pub proof fn lemma_resolution_stays_within_reach(p: Player, b: BoundingBox)
    requires
        p.wf(),
        b.wf(),
        contact_of(p.shape(), b).is_some(),
    ensures
        ({
            let c = contact_of(p.shape(), b).unwrap();
            let q = resolved(p, b);
            let d2 = b.distance_squared(p.position);
            let o = offset_on(b, p.position, c.axis);
            let t = reach_along(o, p.radius as int, d2);
            &&& c.push == push_along(o, p.radius as int, d2)
            &&& o != 0
            &&& magnitude(o) <= t <= p.radius
            &&& -COORD_LIMIT - p.radius <= component(
                c.axis,
                p.position.x as int,
                p.position.y as int,
                p.position.z as int,
            ) + c.push <= COORD_LIMIT + p.radius
            &&& b.nearest(q.position) == b.nearest(p.position)
            &&& offset_on(b, q.position, c.axis) == if o > 0 {
                t
            } else {
                -t
            }
            &&& offset_off(b, q.position, c.axis) == offset_off(b, p.position, c.axis)
            &&& b.distance_squared(q.position) == t * t + offset_off(b, p.position, c.axis)
            &&& d2 <= b.distance_squared(q.position) <= p.radius * p.radius
        }),
{
    let c = contact_of(p.shape(), b).unwrap();
    let q = resolved(p, b);
    let (dx, dy, dz) = (b.offset_x(p.position), b.offset_y(p.position), b.offset_z(p.position));
    let d2 = b.distance_squared(p.position);
    let o = offset_on(b, p.position, c.axis);
    let t = reach_along(o, p.radius as int, d2);
    lemma_split_squares(c.axis, dx, dy, dz);
    lemma_reach_bounds(o, offset_off(b, p.position, c.axis), p.radius as int);
    assert(o != 0);
    assert(c.push == push_along(o, p.radius as int, d2));
    let e = offset_on(b, q.position, c.axis);
    assert(e == if o > 0 {
        t
    } else {
        -t
    });
    assert(e * e == t * t) by (nonlinear_arith)
        requires
            e == t || e == -t,
    ;
    lemma_split_squares(
        c.axis,
        b.offset_x(q.position),
        b.offset_y(q.position),
        b.offset_z(q.position),
    );
}

/// A ball that does not reach into a box is left as it is: position,
/// velocity and jump count.
pub proof fn lemma_clear_ball_is_left_alone(p: Player, b: BoundingBox)
    requires
        p.wf(),
        b.wf(),
        b.distance_squared(p.position) >= p.radius * p.radius,
    ensures
        resolved(p, b) == p,
{
}

/// A ball whose center lies in the box is left as it is: there is no
/// direction in which to push it out.
pub proof fn lemma_center_inside_is_left_alone(p: Player, b: BoundingBox)
    requires
        p.wf(),
        b.wf(),
        b.min_x <= p.position.x <= b.max_x,
        b.min_y <= p.position.y <= b.max_y,
        b.min_z <= p.position.z <= b.max_z,
    ensures
        resolved(p, b) == p,
{
    lemma_split_squares(
        Axis::X,
        b.offset_x(p.position),
        b.offset_y(p.position),
        b.offset_z(p.position),
    );
}

/// Resolving twice against the same box: where the first resolution has
/// left the ball clear of the box, the second changes nothing.
pub proof fn lemma_second_resolution_is_idle(p: Player, b: BoundingBox)
    requires
        p.wf(),
        b.wf(),
        !resolved(p, b).shape().penetrates(b),
    ensures
        resolved(resolved(p, b), b) == resolved(p, b),
{
}

/// A ball that reaches into a box through one of its faces, its center
/// off the box on one axis only, is set against that face: its center
/// comes to lie one radius from the face, and it is then clear of the
/// box, so that resolving once more changes nothing.
pub proof fn lemma_face_contact_frees_the_ball(p: Player, b: BoundingBox)
    requires
        p.wf(),
        b.wf(),
        p.shape().penetrates(b),
        ({
            let dx = b.offset_x(p.position);
            let dy = b.offset_y(p.position);
            let dz = b.offset_z(p.position);
            ||| dx != 0 && dy == 0 && dz == 0
            ||| dx == 0 && dy != 0 && dz == 0
            ||| dx == 0 && dy == 0 && dz != 0
        }),
    ensures
        contact_of(p.shape(), b).is_some(),
        magnitude(offset_on(b, resolved(p, b).position, contact_of(p.shape(), b).unwrap().axis))
            == p.radius,
        b.nearest(resolved(p, b).position) == b.nearest(p.position),
        b.distance_squared(resolved(p, b).position) == p.radius * p.radius,
        !resolved(p, b).shape().penetrates(b),
        resolved(resolved(p, b), b) == resolved(p, b),
{
    let (dx, dy, dz) = (b.offset_x(p.position), b.offset_y(p.position), b.offset_z(p.position));
    let axis = dominant_axis(dx, dy, dz);
    lemma_split_squares(axis, dx, dy, dz);
    let o = component(axis, dx, dy, dz);
    assert(o != 0 && others_squared(axis, dx, dy, dz) == 0);
    assert(o * o > 0) by (nonlinear_arith)
        requires
            o != 0,
    ;
    lemma_reach_on_one_axis(o, p.radius as int);
    lemma_resolution_stays_within_reach(p, b);
}

/// A ball that has sunk into the top face of a box, above the face's
/// extent, is set down on the face: its center comes to lie one radius
/// above the face, its vertical velocity and its jump count are cleared,
/// nothing else changes, and it is then clear of the box.
pub proof fn lemma_landing_on_top_face(p: Player, b: BoundingBox)
    requires
        p.wf(),
        b.wf(),
        b.min_x <= p.position.x <= b.max_x,
        b.min_z <= p.position.z <= b.max_z,
        b.max_y < p.position.y < b.max_y + p.radius,
    ensures
        resolved(p, b).position.x == p.position.x,
        resolved(p, b).position.z == p.position.z,
        resolved(p, b).position.y == b.max_y + p.radius,
        resolved(p, b).velocity.y == 0,
        resolved(p, b).velocity.x == p.velocity.x,
        resolved(p, b).velocity.z == p.velocity.z,
        resolved(p, b).jump_count == 0,
        resolved(p, b).radius == p.radius,
        resolved(p, b).spin == p.spin,
        !resolved(p, b).shape().penetrates(b),
{
    let g = p.position.y - b.max_y;
    let r = p.radius as int;
    lemma_split_squares(Axis::Y, 0, g, 0);
    assert(g * g < r * r) by (nonlinear_arith)
        requires
            0 < g < r,
    ;
    lemma_face_contact_frees_the_ball(p, b);
    lemma_resolution_stays_within_reach(p, b);
}

/// A ball that rests exactly on the top face of a box, its center one
/// radius above the face, does not reach into the box and is left as it
/// is: it is not moved on any axis, and a vertical velocity and a jump
/// count of zero stay zero.
pub proof fn lemma_resting_on_top_face(p: Player, b: BoundingBox)
    requires
        p.wf(),
        b.wf(),
        b.min_x <= p.position.x <= b.max_x,
        b.min_z <= p.position.z <= b.max_z,
        p.position.y == b.max_y + p.radius,
    ensures
        resolved(p, b) == p,
        resolved(p, b).position.x == p.position.x,
        resolved(p, b).position.z == p.position.z,
        p.velocity.y == 0 ==> resolved(p, b).velocity.y == 0,
        p.jump_count == 0 ==> resolved(p, b).jump_count == 0,
{
    lemma_split_squares(Axis::Y, 0, p.radius as int, 0);
}

} // verus!
