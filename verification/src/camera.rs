//! The orbit camera: an eye that circles the player at a fixed distance,
//! steered by the mouse.

use crate::geometry::Vec3;
use crate::player::{Input, Player};
use crate::scalar::{
    clamp, clamp_between, lemma_trunc_rem_bounds, narrow_wide, plus, quotient, saturate, trunc_div,
    trunc_rem, UNIT,
};
use vstd::prelude::*;

verus! {

/// The sine and the cosine of an angle, in thousandths. The host computes
/// them from an angle that the library hands out.
#[derive(Clone, Copy, Debug, PartialEq, Eq, Structural)]
pub struct Heading {
    pub sin: i32,
    pub cos: i32,
}

/// The camera's two angles as sines and cosines.
#[derive(Clone, Copy, Debug, PartialEq, Eq, Structural)]
pub struct Orientation {
    pub yaw: Heading,
    pub pitch: Heading,
}

/// Where the camera stands and what it looks at.
#[derive(Clone, Copy, Debug, PartialEq, Eq, Structural)]
pub struct CameraPose {
    pub eye: Vec3,
    pub at: Vec3,
    pub up: Vec3,
}

/// The highest pitch of a camera made by `OrbitCamera::new`: a quarter of
/// pi, in thousandths of a radian, rounded toward zero.
pub const DEFAULT_PITCH_MAX: i32 = 785;

/// The lowest pitch of a camera made by `OrbitCamera::new`.
pub const DEFAULT_PITCH_MIN: i32 = -785;

/// The orbit distance of a camera made by `OrbitCamera::new`: five units.
pub const DEFAULT_DISTANCE: i32 = 5000;

/// The divisor that turns mouse travel, in thousandths of a pixel, into
/// thousandths of a radian: a tenth of the travel per second at sixty
/// ticks per second.
pub const MOUSE_DIVISOR: i32 = 600;

/// The state of the orbit camera. Angles are in thousandths of a radian.
#[derive(Clone, Copy, Debug, PartialEq, Eq, Structural)]
pub struct OrbitCamera {
    /// The elevation, kept between `pitch_min` and `pitch_max`.
    pub pitch: i32,
    /// The bearing, free to turn all the way round.
    pub yaw: i32,
    /// How far the eye stays from the player.
    pub distance: i32,
    /// The player's position as of the last update.
    pub player_pos: Vec3,
    pub pitch_min: i32,
    pub pitch_max: i32,
    /// Mouse travel per step of angle; positive.
    pub sensitivity: i32,
    /// Sideways mouse travel that has not yet made a whole step of yaw.
    pub yaw_carry: i32,
    /// Upward mouse travel that has not yet made a whole step of pitch.
    pub pitch_carry: i32,
}

/// The whole steps of angle in the mouse travel of a tick together with
/// what earlier ticks have left over.
pub open spec fn turn_steps(carry: int, delta: int, sensitivity: int) -> int {
    trunc_div(carry + delta, sensitivity)
}

/// The mouse travel that is left over for later ticks.
pub open spec fn turn_carry(carry: int, delta: int, sensitivity: int) -> int {
    trunc_rem(carry + delta, sensitivity)
}

/// The camera after one tick: turned by the mouse's travel, the pitch
/// kept within its range and the yaw not, and looking at the player.
/// Travel that makes no whole step of angle is carried to the next tick.
pub open spec fn steered(c: OrbitCamera, events: Input, player: Player) -> OrbitCamera {
    OrbitCamera {
        pitch: clamp_between(
            saturate(
                c.pitch + turn_steps(
                    c.pitch_carry as int,
                    events.mouse_dy as int,
                    c.sensitivity as int,
                ),
            ),
            c.pitch_min as int,
            c.pitch_max as int,
        ) as i32,
        yaw: saturate(
            c.yaw + turn_steps(c.yaw_carry as int, events.mouse_dx as int, c.sensitivity as int),
        ) as i32,
        player_pos: player.position,
        yaw_carry: turn_carry(c.yaw_carry as int, events.mouse_dx as int, c.sensitivity as int) as i32,
        pitch_carry: turn_carry(
            c.pitch_carry as int,
            events.mouse_dy as int,
            c.sensitivity as int,
        ) as i32,
        ..c
    }
}

/// Steering keeps the camera well formed: the pitch stays in its range and
/// what is carried stays below one step of angle.
pub proof fn lemma_steered_keeps_wf(c: OrbitCamera, events: Input, player: Player)
    requires
        c.wf(),
    ensures
        steered(c, events, player).wf(),
{
    lemma_trunc_rem_bounds(c.yaw_carry + events.mouse_dx, c.sensitivity as int);
    lemma_trunc_rem_bounds(c.pitch_carry + events.mouse_dy, c.sensitivity as int);
}

/// No mouse travel is lost: as long as the yaw stays within the range of a
/// scalar, the yaw in units of travel, together with the travel carried,
/// grows by exactly the travel of the tick. The carry stays smaller than
/// one step of angle.
pub proof fn lemma_no_mouse_travel_is_lost(c: OrbitCamera, events: Input, player: Player)
    requires
        c.wf(),
        i32::MIN <= c.yaw + turn_steps(
            c.yaw_carry as int,
            events.mouse_dx as int,
            c.sensitivity as int,
        ) <= i32::MAX,
    ensures
        steered(c, events, player).yaw * c.sensitivity + steered(c, events, player).yaw_carry
            == c.yaw * c.sensitivity + c.yaw_carry + events.mouse_dx,
{
    lemma_trunc_rem_bounds(c.yaw_carry + events.mouse_dx, c.sensitivity as int);
    let steps = turn_steps(c.yaw_carry as int, events.mouse_dx as int, c.sensitivity as int);
    assert((c.yaw + steps) * c.sensitivity == c.yaw * c.sensitivity + steps * c.sensitivity)
        by (nonlinear_arith);
}

/// The displacement from the player to the eye: the vector of length
/// `distance` that points backwards, tilted by the pitch and then turned
/// by the yaw.
pub open spec fn eye_offset(distance: int, o: Orientation) -> (int, int, int) {
    (
        trunc_div(distance * o.pitch.cos * o.yaw.sin, UNIT * UNIT),
        trunc_div(distance * o.pitch.sin, UNIT as int),
        trunc_div(-(distance * o.pitch.cos * o.yaw.cos), UNIT * UNIT),
    )
}

/// The pose of a camera with the given orientation.
pub open spec fn pose_of(c: OrbitCamera, o: Orientation) -> CameraPose {
    let d = eye_offset(c.distance as int, o);
    CameraPose {
        eye: Vec3 {
            x: saturate(c.player_pos.x + saturate(d.0)) as i32,
            y: saturate(c.player_pos.y + saturate(d.1)) as i32,
            z: saturate(c.player_pos.z + saturate(d.2)) as i32,
        },
        at: c.player_pos,
        up: Vec3 { x: 0, y: UNIT, z: 0 },
    }
}

impl OrbitCamera {
    /// The pitch range is not empty and holds the pitch, the sensitivity is
    /// positive, and what is carried is less than one step of angle.
    pub open spec fn wf(&self) -> bool {
        &&& self.pitch_min <= self.pitch <= self.pitch_max
        &&& self.sensitivity > 0
        &&& -self.sensitivity < self.yaw_carry < self.sensitivity
        &&& -self.sensitivity < self.pitch_carry < self.sensitivity
    }

    /// Whether the camera's pitch lies in its range and its sensitivity is
    /// positive.
    pub fn is_valid(&self) -> (r: bool)
        ensures
            r == self.wf(),
    {
        self.pitch_min <= self.pitch && self.pitch <= self.pitch_max && self.sensitivity > 0
            && -self.sensitivity < self.yaw_carry && self.yaw_carry < self.sensitivity
            && -self.sensitivity < self.pitch_carry && self.pitch_carry < self.sensitivity
    }

    /// A level camera five units behind the origin, with a pitch range of a
    /// quarter of pi either way.
    pub fn new() -> (c: OrbitCamera)
        ensures
            c == (OrbitCamera {
                pitch: 0,
                yaw: 0,
                distance: DEFAULT_DISTANCE,
                player_pos: Vec3 { x: 0, y: 0, z: 0 },
                pitch_min: DEFAULT_PITCH_MIN,
                pitch_max: DEFAULT_PITCH_MAX,
                sensitivity: MOUSE_DIVISOR,
                yaw_carry: 0,
                pitch_carry: 0,
            }),
            c.wf(),
    {
        OrbitCamera {
            pitch: 0,
            yaw: 0,
            distance: DEFAULT_DISTANCE,
            player_pos: Vec3::zero(),
            pitch_min: DEFAULT_PITCH_MIN,
            pitch_max: DEFAULT_PITCH_MAX,
            sensitivity: MOUSE_DIVISOR,
            yaw_carry: 0,
            pitch_carry: 0,
        }
    }

    /// A level camera with a pitch range and a sensitivity of the caller's
    /// choice, or nothing where the range is empty or does not hold the
    /// level pitch, or the sensitivity is not positive.
    pub fn configured(distance: i32, pitch_min: i32, pitch_max: i32, sensitivity: i32) -> (r:
        Option<OrbitCamera>)
        ensures
            r.is_some() <==> pitch_min <= 0 <= pitch_max && sensitivity > 0,
            r.is_some() ==> r.unwrap() == (OrbitCamera {
                pitch: 0,
                yaw: 0,
                distance,
                player_pos: Vec3 { x: 0, y: 0, z: 0 },
                pitch_min,
                pitch_max,
                sensitivity,
                yaw_carry: 0,
                pitch_carry: 0,
            }),
    {
        if pitch_min <= 0 && 0 <= pitch_max && sensitivity > 0 {
            Some(
                OrbitCamera {
                    pitch: 0,
                    yaw: 0,
                    distance,
                    player_pos: Vec3::zero(),
                    pitch_min,
                    pitch_max,
                    sensitivity,
                    yaw_carry: 0,
                    pitch_carry: 0,
                },
            )
        } else {
            None
        }
    }

    /// Turns the camera by one tick's mouse travel and points it at the
    /// player. The pitch stops at the ends of its range; the yaw does not.
    /// Travel that makes no whole step of angle is kept for the next tick.
    pub fn update(&mut self, events: &Input, player: &Player)
        requires
            old(self).wf(),
        ensures
            *final(self) == steered(*old(self), *events, *player),
            final(self).wf(),
    {
        let (yaw_steps, yaw_carry) = turn(self.yaw_carry, events.mouse_dx, self.sensitivity);
        let (pitch_steps, pitch_carry) = turn(self.pitch_carry, events.mouse_dy, self.sensitivity);
        let tilt = narrow_wide(self.pitch as i128 + pitch_steps as i128);
        self.pitch = clamp(tilt, self.pitch_min, self.pitch_max);
        self.yaw = narrow_wide(self.yaw as i128 + yaw_steps as i128);
        self.yaw_carry = yaw_carry;
        self.pitch_carry = pitch_carry;
        self.player_pos = player.position;
    }

    /// Where the camera stands: at the player's position, moved back by the
    /// orbit distance in the direction that the two angles give.
    pub fn update_camera(&self, o: &Orientation) -> (pose: CameraPose)
        ensures
            pose == pose_of(*self, *o),
    {
        let d: i128 = self.distance as i128;
        let sy: i128 = o.yaw.sin as i128;
        let cy: i128 = o.yaw.cos as i128;
        let sp: i128 = o.pitch.sin as i128;
        let cp: i128 = o.pitch.cos as i128;
        let unit: i128 = UNIT as i128;
        assert(-0x4000_0000_0000_0000 <= d * cp <= 0x4000_0000_0000_0000
            && -0x4000_0000_0000_0000 <= d * sp <= 0x4000_0000_0000_0000) by (nonlinear_arith)
            requires
                -0x8000_0000 <= d <= 0x7fff_ffff,
                -0x8000_0000 <= cp <= 0x7fff_ffff,
                -0x8000_0000 <= sp <= 0x7fff_ffff,
        ;
        let flat: i128 = d * cp;
        assert(-0x2000_0000_0000_0000_0000_0000 <= flat * sy <= 0x2000_0000_0000_0000_0000_0000
            && -0x2000_0000_0000_0000_0000_0000 <= flat * cy <= 0x2000_0000_0000_0000_0000_0000)
            by (nonlinear_arith)
            requires
                -0x4000_0000_0000_0000 <= flat <= 0x4000_0000_0000_0000,
                -0x8000_0000 <= sy <= 0x7fff_ffff,
                -0x8000_0000 <= cy <= 0x7fff_ffff,
        ;
        let off_x = narrow_wide(quotient(flat * sy, unit * unit));
        let off_y = narrow_wide(quotient(d * sp, unit));
        let off_z = narrow_wide(quotient(-(flat * cy), unit * unit));
        CameraPose {
            eye: Vec3 {
                x: plus(self.player_pos.x, off_x),
                y: plus(self.player_pos.y, off_y),
                z: plus(self.player_pos.z, off_z),
            },
            at: self.player_pos,
            up: Vec3 { x: 0, y: UNIT, z: 0 },
        }
    }
}

/// Splits the mouse travel of a tick, with what was carried, into whole
/// steps of angle and what is carried on.
pub fn turn(carry: i32, delta: i32, sensitivity: i32) -> (r: (i64, i32))
    requires
        sensitivity > 0,
        -sensitivity < carry < sensitivity,
    ensures
        r.0 == turn_steps(carry as int, delta as int, sensitivity as int),
        r.1 == turn_carry(carry as int, delta as int, sensitivity as int),
        -sensitivity < r.1 < sensitivity,
{
    let total: i128 = carry as i128 + delta as i128;
    let steps = quotient(total, sensitivity as i128);
    proof {
        lemma_trunc_rem_bounds(total as int, sensitivity as int);
    }
    let rest = total - steps * sensitivity as i128;
    (steps as i64, rest as i32)
}

} // verus!
