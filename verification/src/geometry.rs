//! Geometry primitives: points, spheres and axis-aligned boxes, and the
//! closest-point distance test between a sphere and a box.

use crate::scalar::{clamp, clamp_between};
use vstd::prelude::*;

verus! {

/// The largest magnitude of a coordinate of a box of level geometry.
pub const COORD_LIMIT: i32 = 1_000_000_000;

/// The largest radius of a sphere.
pub const RADIUS_LIMIT: i32 = 1_000_000_000;

/// A point or a displacement in space.
#[derive(Clone, Copy, Debug, PartialEq, Eq, Structural)]
pub struct Vec3 {
    pub x: i32,
    pub y: i32,
    pub z: i32,
}

impl Vec3 {
    pub fn new(x: i32, y: i32, z: i32) -> (v: Vec3)
        ensures
            v == (Vec3 { x, y, z }),
    {
        Vec3 { x, y, z }
    }

    /// The origin.
    pub fn zero() -> (v: Vec3)
        ensures
            v == (Vec3 { x: 0, y: 0, z: 0 }),
    {
        Vec3 { x: 0, y: 0, z: 0 }
    }
}

/// A static axis-aligned volume of level geometry.
#[derive(Clone, Copy, Debug, PartialEq, Eq, Structural)]
pub struct BoundingBox {
    pub min_x: i32,
    pub max_x: i32,
    pub min_y: i32,
    pub max_y: i32,
    pub min_z: i32,
    pub max_z: i32,
}

impl BoundingBox {
    /// The lower bound does not exceed the upper bound on any axis.
    pub open spec fn ordered(&self) -> bool {
        &&& self.min_x <= self.max_x
        &&& self.min_y <= self.max_y
        &&& self.min_z <= self.max_z
    }

    /// Every bound lies within `COORD_LIMIT` of the origin.
    pub open spec fn within_limits(&self) -> bool {
        &&& -COORD_LIMIT <= self.min_x && self.max_x <= COORD_LIMIT
        &&& -COORD_LIMIT <= self.min_y && self.max_y <= COORD_LIMIT
        &&& -COORD_LIMIT <= self.min_z && self.max_z <= COORD_LIMIT
    }

    /// A box that level geometry may hold.
    pub open spec fn wf(&self) -> bool {
        self.ordered() && self.within_limits()
    }

    /// The point of the box that is nearest to `p`.
    pub open spec fn nearest(&self, p: Vec3) -> Vec3 {
        Vec3 {
            x: clamp_between(p.x as int, self.min_x as int, self.max_x as int) as i32,
            y: clamp_between(p.y as int, self.min_y as int, self.max_y as int) as i32,
            z: clamp_between(p.z as int, self.min_z as int, self.max_z as int) as i32,
        }
    }

    /// The x component of the displacement from the nearest point of the
    /// box to `p`.
    pub open spec fn offset_x(&self, p: Vec3) -> int {
        p.x - clamp_between(p.x as int, self.min_x as int, self.max_x as int)
    }

    /// The y component of the displacement from the nearest point of the
    /// box to `p`.
    pub open spec fn offset_y(&self, p: Vec3) -> int {
        p.y - clamp_between(p.y as int, self.min_y as int, self.max_y as int)
    }

    /// The z component of the displacement from the nearest point of the
    /// box to `p`.
    pub open spec fn offset_z(&self, p: Vec3) -> int {
        p.z - clamp_between(p.z as int, self.min_z as int, self.max_z as int)
    }

    /// The square of the distance from `p` to the box; zero exactly when
    /// `p` lies in the box.
    pub open spec fn distance_squared(&self, p: Vec3) -> int {
        self.offset_x(p) * self.offset_x(p) + self.offset_y(p) * self.offset_y(p)
            + self.offset_z(p) * self.offset_z(p)
    }

    /// Builds a box of level geometry, or nothing where a lower bound
    /// exceeds its upper bound or a bound lies beyond `COORD_LIMIT`.
    pub fn new(
        min_x: i32,
        max_x: i32,
        min_y: i32,
        max_y: i32,
        min_z: i32,
        max_z: i32,
    ) -> (r: Option<BoundingBox>)
        ensures
            r.is_some() <==> (BoundingBox { min_x, max_x, min_y, max_y, min_z, max_z }).wf(),
            r.is_some() ==> r.unwrap() == (BoundingBox {
                min_x,
                max_x,
                min_y,
                max_y,
                min_z,
                max_z,
            }),
    {
        let b = BoundingBox { min_x, max_x, min_y, max_y, min_z, max_z };
        if b.is_valid() {
            Some(b)
        } else {
            None
        }
    }

    /// Whether the box may stand in level geometry.
    pub fn is_valid(&self) -> (r: bool)
        ensures
            r == self.wf(),
    {
        self.min_x <= self.max_x && self.min_y <= self.max_y && self.min_z <= self.max_z
            && -COORD_LIMIT <= self.min_x && self.max_x <= COORD_LIMIT
            && -COORD_LIMIT <= self.min_y && self.max_y <= COORD_LIMIT
            && -COORD_LIMIT <= self.min_z && self.max_z <= COORD_LIMIT
    }

    /// The point of the box that is nearest to `p`: each coordinate of `p`
    /// moved into the box's interval on that axis.
    pub fn closest_point(&self, p: &Vec3) -> (c: Vec3)
        requires
            self.ordered(),
        ensures
            c == self.nearest(*p),
    {
        Vec3 {
            x: clamp(p.x, self.min_x, self.max_x),
            y: clamp(p.y, self.min_y, self.max_y),
            z: clamp(p.z, self.min_z, self.max_z),
        }
    }

    /// The displacement from the nearest point of the box to `p`, one
    /// component per axis.
    pub fn offset(&self, p: &Vec3) -> (d: (i64, i64, i64))
        requires
            self.ordered(),
        ensures
            d.0 == self.offset_x(*p),
            d.1 == self.offset_y(*p),
            d.2 == self.offset_z(*p),
    {
        let c = self.closest_point(p);
        (p.x as i64 - c.x as i64, p.y as i64 - c.y as i64, p.z as i64 - c.z as i64)
    }

    /// The square of the distance from `p` to the box.
    pub fn squared_distance(&self, p: &Vec3) -> (r: u128)
        requires
            self.ordered(),
        ensures
            r == self.distance_squared(*p),
    {
        let (dx, dy, dz) = self.offset(p);
        square(dx) + square(dy) + square(dz)
    }
}

/// The square of a difference of two scalars.
pub fn square(d: i64) -> (r: u128)
    requires
        -0x1_0000_0000 < d < 0x1_0000_0000,
    ensures
        r == d * d,
        r <= 0xffff_ffff * 0xffff_ffff,
{
    let wide: i128 = d as i128;
    assert(0 <= wide * wide <= 0xffff_ffff * 0xffff_ffff) by (nonlinear_arith)
        requires
            -0xffff_ffff <= wide <= 0xffff_ffff,
    ;
    (wide * wide) as u128
}

/// A ball: the player's collision shape.
#[derive(Clone, Copy, Debug, PartialEq, Eq, Structural)]
pub struct Sphere {
    pub center: Vec3,
    pub radius: i32,
}

impl Sphere {
    /// The radius is positive and at most `RADIUS_LIMIT`.
    pub open spec fn wf(&self) -> bool {
        0 < self.radius <= RADIUS_LIMIT
    }

    /// The sphere reaches into the box: its center is nearer to the box
    /// than its radius.
    pub open spec fn penetrates(&self, b: BoundingBox) -> bool {
        b.distance_squared(self.center) < self.radius * self.radius
    }

    /// The sphere reaches the box: its center is no farther from the box
    /// than its radius.
    pub open spec fn touches(&self, b: BoundingBox) -> bool {
        b.distance_squared(self.center) <= self.radius * self.radius
    }

    /// Builds a sphere, or nothing where the radius is not positive or
    /// exceeds `RADIUS_LIMIT`.
    pub fn new(center: Vec3, radius: i32) -> (r: Option<Sphere>)
        ensures
            r.is_some() <==> 0 < radius <= RADIUS_LIMIT,
            r.is_some() ==> r.unwrap() == (Sphere { center, radius }),
    {
        if 0 < radius && radius <= RADIUS_LIMIT {
            Some(Sphere { center, radius })
        } else {
            None
        }
    }

    /// The square of the radius.
    pub fn squared_radius(&self) -> (r: u128)
        ensures
            r == self.radius * self.radius,
    {
        square(self.radius as i64)
    }

    /// Whether the sphere reaches into the box.
    pub fn is_penetrating(&self, b: &BoundingBox) -> (r: bool)
        requires
            b.ordered(),
        ensures
            r == self.penetrates(*b),
    {
        b.squared_distance(&self.center) < self.squared_radius()
    }

    /// Whether the sphere reaches the box.
    pub fn is_touching(&self, b: &BoundingBox) -> (r: bool)
        requires
            b.ordered(),
        ensures
            r == self.touches(*b),
    {
        b.squared_distance(&self.center) <= self.squared_radius()
    }
}

} // verus!
