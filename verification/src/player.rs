//! The player: a ball with a position, a velocity and a bounded count of
//! jumps made since it last stood on something.

use crate::camera::Heading;
use crate::geometry::{Sphere, Vec3, RADIUS_LIMIT};
use crate::scalar::{narrow_wide, plus, quotient, saturate, scale, scaled_product, trunc_div, UNIT};
use vstd::prelude::*;

verus! {

/// The most jumps that can be made without touching ground in between.
pub const MAX_JUMPS: u8 = 2;

/// The gravity of `Settings::standard`: three hundredths of a unit per
/// tick, downwards.
pub const STANDARD_GRAVITY: i32 = -30;

/// What happens to a player that has fallen below the floor.
#[derive(Clone, Copy, Debug, PartialEq, Eq, Structural)]
pub enum FloorPolicy {
    /// The floor is solid: the player is set down on it.
    Land,
    /// The floor is the end of the level: the player is put back at the
    /// level's start.
    Respawn,
}

/// The constants of the player's motion.
#[derive(Clone, Copy, Debug, PartialEq, Eq, Structural)]
pub struct Settings {
    /// The radius of the player's ball.
    pub radius: i32,
    /// The horizontal distance covered in one tick at full input.
    pub speed: i32,
    /// What is added to the vertical velocity in every tick.
    pub gravity: i32,
    /// The vertical velocity after a jump, as a multiple of `speed`.
    pub jump_multiplier: i32,
    /// The height below which the player has fallen through.
    pub floor: i32,
    pub floor_policy: FloorPolicy,
    /// The distance over which the ball rolls through one full turn.
    pub roll_circumference: i32,
}

impl Settings {
    /// The radius is that of a sphere and the roll circumference is
    /// positive.
    pub open spec fn wf(&self) -> bool {
        &&& 0 < self.radius <= RADIUS_LIMIT
        &&& self.roll_circumference > 0
    }

    /// A ball of radius one that covers a fifth of a unit per tick, falls
    /// by three hundredths more in every tick, jumps at three times its
    /// speed, lands on a solid floor at the height of its radius, and
    /// turns once over its own circumference.
    pub fn standard() -> (s: Settings)
        ensures
            s == (Settings {
                radius: 1000,
                speed: 200,
                gravity: STANDARD_GRAVITY,
                jump_multiplier: 3,
                floor: 1000,
                floor_policy: FloorPolicy::Land,
                roll_circumference: 6283,
            }),
            s.wf(),
    {
        Settings {
            radius: 1000,
            speed: 200,
            gravity: STANDARD_GRAVITY,
            jump_multiplier: 3,
            floor: 1000,
            floor_policy: FloorPolicy::Land,
            roll_circumference: 6283,
        }
    }

    /// Whether the settings can drive a player.
    pub fn is_valid(&self) -> (r: bool)
        ensures
            r == self.wf(),
    {
        0 < self.radius && self.radius <= RADIUS_LIMIT && self.roll_circumference > 0
    }
}

/// One tick's snapshot of the controls.
#[derive(Clone, Copy, Debug, PartialEq, Eq, Structural)]
pub struct Input {
    /// Whether the jump key is down.
    pub jump_down: bool,
    /// The sideways control, from -1000 to 1000.
    pub axis_x: i32,
    /// The forward control, from -1000 to 1000.
    pub axis_z: i32,
    /// The sine and cosine of the camera's yaw.
    pub heading: Heading,
    /// Mouse travel since the last tick, in thousandths of a pixel.
    pub mouse_dx: i32,
    pub mouse_dy: i32,
}

/// The sideways control as seen from the camera: the x component of the
/// control vector turned by the heading.
pub open spec fn rotated_x(axis_x: int, axis_z: int, h: Heading) -> int {
    saturate(trunc_div(axis_x * h.cos - axis_z * h.sin, UNIT as int))
}

/// The forward control as seen from the camera: the z component of the
/// control vector turned by the heading.
pub open spec fn rotated_z(axis_x: int, axis_z: int, h: Heading) -> int {
    saturate(trunc_div(axis_x * h.sin + axis_z * h.cos, UNIT as int))
}

/// The vertical velocity that a jump gives.
pub open spec fn jump_impulse(s: Settings) -> int {
    saturate(s.jump_multiplier * s.speed)
}

/// Whether a jump starts in this tick: the key has just gone down and the
/// player has a jump left.
pub open spec fn jump_fires(held: bool, jump_down: bool, p: Player) -> bool {
    jump_down && !held && p.jump_count < MAX_JUMPS
}

/// The player after a jump has started.
pub open spec fn jumped(p: Player, s: Settings) -> Player {
    Player {
        velocity: Vec3 { y: jump_impulse(s) as i32, ..p.velocity },
        jump_count: (p.jump_count + 1) as u8,
        ..p
    }
}

/// The player after one tick of motion: gravity is added to the vertical
/// velocity, the horizontal velocity is the control vector seen from the
/// camera at the settings' speed, and the position moves by the velocity.
pub open spec fn moved(p: Player, input: Input, s: Settings) -> Player {
    let vx = scaled_product(
        s.speed as int,
        rotated_x(input.axis_x as int, input.axis_z as int, input.heading),
    );
    let vy = saturate(p.velocity.y + s.gravity);
    let vz = scaled_product(
        s.speed as int,
        rotated_z(input.axis_x as int, input.axis_z as int, input.heading),
    );
    Player {
        position: Vec3 {
            x: saturate(p.position.x + vx) as i32,
            y: saturate(p.position.y + vy) as i32,
            z: saturate(p.position.z + vz) as i32,
        },
        velocity: Vec3 { x: vx as i32, y: vy as i32, z: vz as i32 },
        ..p
    }
}

/// The player after the floor check: one that has fallen below the floor
/// stops falling and has its jumps back, and is set down on the floor or
/// put back at `start`, as the policy says.
pub open spec fn grounded(p: Player, s: Settings, start: Vec3) -> Player {
    if p.position.y < s.floor {
        Player {
            position: match s.floor_policy {
                FloorPolicy::Land => Vec3 { y: s.floor, ..p.position },
                FloorPolicy::Respawn => start,
            },
            velocity: Vec3 { y: 0, ..p.velocity },
            jump_count: 0,
            ..p
        }
    } else {
        p
    }
}

/// How far the ball turns in a tick on one axis: the distance `v` covered
/// as a fraction of the roll circumference, in thousandths, as it is on
/// the ground, halved after one jump and doubled after two.
pub open spec fn roll_of(v: int, jump_count: u8, circumference: int) -> int {
    if jump_count == 0 {
        saturate(trunc_div(v * UNIT, circumference))
    } else if jump_count == 1 {
        saturate(trunc_div(v * UNIT, circumference * 2))
    } else {
        saturate(trunc_div(v * UNIT * 2, circumference))
    }
}

/// The player with the spin that its horizontal velocity gives it.
pub open spec fn rolled(p: Player, s: Settings) -> Player {
    Player {
        spin: Spin {
            xy: roll_of(p.velocity.x as int, p.jump_count, s.roll_circumference as int) as i32,
            yz: roll_of(-(p.velocity.z as int), p.jump_count, s.roll_circumference as int) as i32,
        },
        ..p
    }
}

/// The rolling of the ball during one tick, as the two components of the
/// rotation plane that horizontal motion turns it in.
#[derive(Clone, Copy, Debug, PartialEq, Eq, Structural)]
pub struct Spin {
    pub xy: i32,
    pub yz: i32,
}

/// The player's kinematic state.
#[derive(Clone, Copy, Debug, PartialEq, Eq, Structural)]
pub struct Player {
    /// The center of the ball.
    pub position: Vec3,
    /// The displacement of the current tick. Only the vertical component
    /// carries over to the next tick.
    pub velocity: Vec3,
    pub radius: i32,
    /// 0 on the ground, 1 after a jump, 2 after a second jump in the air.
    pub jump_count: u8,
    /// How the ball rolled in the current tick.
    pub spin: Spin,
}

impl Player {
    /// The radius is that of a sphere and the jump count is at most
    /// `MAX_JUMPS`.
    pub open spec fn wf(&self) -> bool {
        &&& 0 < self.radius <= RADIUS_LIMIT
        &&& self.jump_count <= MAX_JUMPS
    }

    /// The player's collision shape.
    pub open spec fn shape(&self) -> Sphere {
        Sphere { center: self.position, radius: self.radius }
    }

    /// A player at rest at `position`, or nothing where the radius is not
    /// positive or exceeds `RADIUS_LIMIT`.
    pub fn new(position: Vec3, radius: i32) -> (r: Option<Player>)
        ensures
            r.is_some() <==> 0 < radius <= RADIUS_LIMIT,
            r.is_some() ==> r.unwrap() == (Player {
                position,
                velocity: Vec3 { x: 0, y: 0, z: 0 },
                radius,
                jump_count: 0,
                spin: Spin { xy: 0, yz: 0 },
            }),
    {
        if 0 < radius && radius <= RADIUS_LIMIT {
            Some(
                Player {
                    position,
                    velocity: Vec3::zero(),
                    radius,
                    jump_count: 0,
                    spin: Spin { xy: 0, yz: 0 },
                },
            )
        } else {
            None
        }
    }

    /// Whether the radius is that of a sphere and the jump count is in
    /// range.
    pub fn is_valid(&self) -> (r: bool)
        ensures
            r == self.wf(),
    {
        0 < self.radius && self.radius <= RADIUS_LIMIT && self.jump_count <= MAX_JUMPS
    }

    /// The player's collision shape, built afresh from its current state.
    pub fn sphere(&self) -> (s: Sphere)
        ensures
            s == self.shape(),
    {
        Sphere { center: self.position, radius: self.radius }
    }

    /// Starts a jump: the vertical velocity becomes the jump impulse and
    /// one more jump is counted.
    pub fn jump(&mut self, s: &Settings)
        requires
            old(self).jump_count < MAX_JUMPS,
        ensures
            *final(self) == jumped(*old(self), *s),
    {
        let multiplier: i128 = s.jump_multiplier as i128;
        let speed: i128 = s.speed as i128;
        assert(-0x4000_0000_0000_0000 <= multiplier * speed <= 0x4000_0000_0000_0000)
            by (nonlinear_arith)
            requires
                -0x8000_0000 <= multiplier <= 0x7fff_ffff,
                -0x8000_0000 <= speed <= 0x7fff_ffff,
        ;
        self.velocity.y = narrow_wide(multiplier * speed);
        self.jump_count = self.jump_count + 1;
    }

    /// Moves the player by one tick: gravity, then the controls as seen
    /// from the camera.
    pub fn advance(&mut self, input: &Input, s: &Settings)
        ensures
            *final(self) == moved(*old(self), *input, *s),
    {
        let (mx, mz) = rotate(input.axis_x, input.axis_z, &input.heading);
        let vx = scale(s.speed, mx);
        let vy = plus(self.velocity.y, s.gravity);
        let vz = scale(s.speed, mz);
        self.position = Vec3 {
            x: plus(self.position.x, vx),
            y: plus(self.position.y, vy),
            z: plus(self.position.z, vz),
        };
        self.velocity = Vec3 { x: vx, y: vy, z: vz };
    }

    /// Catches a player that has fallen below the floor.
    pub fn ground_check(&mut self, s: &Settings, start: &Vec3)
        ensures
            *final(self) == grounded(*old(self), *s, *start),
    {
        if self.position.y < s.floor {
            match s.floor_policy {
                FloorPolicy::Land => {
                    self.position.y = s.floor;
                },
                FloorPolicy::Respawn => {
                    self.position = *start;
                },
            }
            self.velocity.y = 0;
            self.jump_count = 0;
        }
    }

    /// Derives the spin of the ball from its horizontal velocity.
    pub fn roll(&mut self, s: &Settings)
        requires
            s.wf(),
        ensures
            *final(self) == rolled(*old(self), *s),
    {
        self.spin = Spin {
            xy: roll(self.velocity.x as i64, self.jump_count, s.roll_circumference),
            yz: roll(-(self.velocity.z as i64), self.jump_count, s.roll_circumference),
        };
    }
}

/// Turns the control vector by the heading.
pub fn rotate(axis_x: i32, axis_z: i32, h: &Heading) -> (r: (i32, i32))
    ensures
        r.0 == rotated_x(axis_x as int, axis_z as int, *h),
        r.1 == rotated_z(axis_x as int, axis_z as int, *h),
{
    let x: i128 = axis_x as i128;
    let z: i128 = axis_z as i128;
    let sin: i128 = h.sin as i128;
    let cos: i128 = h.cos as i128;
    assert(-0x4000_0000_0000_0000 <= x * cos <= 0x4000_0000_0000_0000
        && -0x4000_0000_0000_0000 <= z * sin <= 0x4000_0000_0000_0000
        && -0x4000_0000_0000_0000 <= x * sin <= 0x4000_0000_0000_0000
        && -0x4000_0000_0000_0000 <= z * cos <= 0x4000_0000_0000_0000) by (nonlinear_arith)
        requires
            -0x8000_0000 <= x <= 0x7fff_ffff,
            -0x8000_0000 <= z <= 0x7fff_ffff,
            -0x8000_0000 <= sin <= 0x7fff_ffff,
            -0x8000_0000 <= cos <= 0x7fff_ffff,
    ;
    let unit: i128 = UNIT as i128;
    (narrow_wide(quotient(x * cos - z * sin, unit)), narrow_wide(quotient(x * sin + z * cos, unit)))
}

/// How far the ball turns in a tick on one axis.
pub fn roll(v: i64, jump_count: u8, circumference: i32) -> (r: i32)
    requires
        circumference > 0,
        -0x8000_0000 <= v <= 0x8000_0000,
    ensures
        r == roll_of(v as int, jump_count, circumference as int),
{
    let distance: i128 = v as i128 * 1000;
    assert(distance == v * UNIT);
    let turn: i128 = circumference as i128;
    if jump_count == 0 {
        narrow_wide(quotient(distance, turn))
    } else if jump_count == 1 {
        narrow_wide(quotient(distance, turn * 2))
    } else {
        narrow_wide(quotient(distance * 2, turn))
    }
}

/// The sum of the whole numbers up to `n`.
pub open spec fn triangle(n: nat) -> nat
    decreases n,
{
    if n == 0 {
        0
    } else {
        triangle((n - 1) as nat) + n
    }
}

/// The player after `n` ticks of motion under the same controls.
pub open spec fn moved_for(p: Player, input: Input, s: Settings, n: nat) -> Player
    decreases n,
{
    if n == 0 {
        p
    } else {
        moved(moved_for(p, input, s, (n - 1) as nat), input, s)
    }
}

/// Free fall: with the controls at rest, a player that is not rising, under
/// a gravity that pulls down, has after `n` ticks gained `n` times the
/// gravity in vertical velocity and has fallen by `n` times its first
/// velocity and by the gravity once for the first tick, twice for the
/// second, and so on. It has not moved sideways. This holds as long as the
/// fall stays within the range of a scalar.
pub proof fn lemma_free_fall(p: Player, input: Input, s: Settings, n: nat)
    requires
        input.axis_x == 0,
        input.axis_z == 0,
        s.gravity <= 0,
        p.velocity.y <= 0,
        p.velocity.y + n * s.gravity >= i32::MIN,
        p.position.y + n * p.velocity.y + triangle(n) * s.gravity >= i32::MIN,
    ensures
        moved_for(p, input, s, n).velocity.y == p.velocity.y + n * s.gravity,
        moved_for(p, input, s, n).position.y == p.position.y + n * p.velocity.y + triangle(n)
            * s.gravity,
        moved_for(p, input, s, n).position.x == p.position.x,
        moved_for(p, input, s, n).position.z == p.position.z,
        moved_for(p, input, s, n).jump_count == p.jump_count,
        moved_for(p, input, s, n).radius == p.radius,
    decreases n,
{
    if n > 0 {
        let m = (n - 1) as nat;
        let g = s.gravity as int;
        let v = p.velocity.y as int;
        assert(n * g == m * g + g && n * v == m * v + v && triangle(n) * g == triangle(m) * g + n
            * g && m * g <= 0 && m * v <= 0 && n * g <= 0 && triangle(m) * g <= 0) by (nonlinear_arith)
            requires
                n == m + 1,
                triangle(n) == triangle(m) + n,
                g <= 0,
                v <= 0,
                m >= 0,
                triangle(m) >= 0,
        ;
        lemma_free_fall(p, input, s, m);
        let q = moved_for(p, input, s, m);
        assert(0 * input.heading.cos - 0 * input.heading.sin == 0) by (nonlinear_arith);
        assert(0 * input.heading.sin + 0 * input.heading.cos == 0) by (nonlinear_arith);
        assert(s.speed * 0 == 0) by (nonlinear_arith);
    } else {
        assert(n * s.gravity == 0 && n * p.velocity.y == 0 && triangle(n) * s.gravity == 0)
            by (nonlinear_arith)
            requires
                n == 0,
                triangle(n) == 0,
        ;
    }
}

} // verus!
