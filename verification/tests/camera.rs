use jumpyball::camera::{CameraPose, Heading, OrbitCamera, Orientation};
use jumpyball::geometry::Vec3;
use jumpyball::player::{Input, Player};

fn turn(c: &mut OrbitCamera, dx: i32, dy: i32, target: Vec3) {
    let events = Input {
        jump_down: false,
        axis_x: 0,
        axis_z: 0,
        heading: Heading { sin: 0, cos: 1000 },
        mouse_dx: dx,
        mouse_dy: dy,
    };
    let player = Player::new(target, 1000).unwrap();
    c.update(&events, &player);
}

#[test]
fn new_camera() {
    let c = OrbitCamera::new();
    assert_eq!(c.pitch, 0);
    assert_eq!(c.yaw, 0);
    assert_eq!(c.distance, 5000);
    assert_eq!(c.player_pos, Vec3::zero());
    assert_eq!(c.pitch_min, -785);
    assert_eq!(c.pitch_max, 785);
    assert_eq!(c.sensitivity, 600);
    assert_eq!(c.yaw_carry, 0);
    assert_eq!(c.pitch_carry, 0);
    assert!(c.is_valid());
}

#[test]
fn configured_camera() {
    let c = OrbitCamera::configured(8000, 0, 1047, 300).unwrap();
    assert_eq!(c.distance, 8000);
    assert_eq!(c.pitch_min, 0);
    assert_eq!(c.pitch_max, 1047);
    assert_eq!(c.sensitivity, 300);
    assert_eq!(c.pitch, 0);
    assert_eq!(c.yaw, 0);
    assert_eq!(OrbitCamera::configured(8000, 10, 1047, 300), None);
    assert_eq!(OrbitCamera::configured(8000, -10, -5, 300), None);
    assert_eq!(OrbitCamera::configured(8000, 0, 1047, 0), None);
    assert_eq!(OrbitCamera::configured(8000, 0, 1047, -1), None);
}

#[test]
fn mouse_travel_turns_the_camera() {
    let mut c = OrbitCamera::new();
    turn(&mut c, 60_000, 30_000, Vec3::new(1, 2, 3));
    assert_eq!(c.yaw, 100);
    assert_eq!(c.pitch, 50);
    assert_eq!(c.player_pos, Vec3::new(1, 2, 3));
    assert_eq!((c.yaw_carry, c.pitch_carry), (0, 0));
    turn(&mut c, -1000, -1000, Vec3::new(4, 5, 6));
    assert_eq!(c.yaw, 99);
    assert_eq!(c.pitch, 49);
    assert_eq!((c.yaw_carry, c.pitch_carry), (-400, -400));
    assert_eq!(c.player_pos, Vec3::new(4, 5, 6));
    // 199 is left over one way, a whole step is made up the other way
    turn(&mut c, 599, -599, Vec3::zero());
    assert_eq!(c.yaw, 99);
    assert_eq!(c.pitch, 48);
    assert_eq!((c.yaw_carry, c.pitch_carry), (199, -399));
}

#[test]
fn one_pixel_a_tick_turns_a_six_hundredth_of_a_radian() {
    // 1000 / 600 steps a tick: 1, 2 and 2 steps in three ticks
    let mut c = OrbitCamera::new();
    turn(&mut c, 1000, 0, Vec3::zero());
    assert_eq!((c.yaw, c.yaw_carry), (1, 400));
    turn(&mut c, 1000, 0, Vec3::zero());
    assert_eq!((c.yaw, c.yaw_carry), (3, 200));
    turn(&mut c, 1000, 0, Vec3::zero());
    assert_eq!((c.yaw, c.yaw_carry), (5, 0));
    for _ in 0..597 {
        turn(&mut c, 1000, 0, Vec3::zero());
    }
    assert_eq!((c.yaw, c.yaw_carry), (1000, 0));
}

#[test]
fn slow_travel_adds_up() {
    let mut c = OrbitCamera::new();
    for _ in 0..5 {
        turn(&mut c, -100, 100, Vec3::zero());
        assert_eq!((c.yaw, c.pitch), (0, 0));
    }
    turn(&mut c, -100, 100, Vec3::zero());
    assert_eq!((c.yaw, c.pitch), (-1, 1));
    assert_eq!((c.yaw_carry, c.pitch_carry), (0, 0));
}

#[test]
fn travel_back_and_forth_cancels() {
    let mut c = OrbitCamera::new();
    turn(&mut c, 700, 0, Vec3::zero());
    assert_eq!((c.yaw, c.yaw_carry), (1, 100));
    turn(&mut c, -700, 0, Vec3::zero());
    assert_eq!((c.yaw, c.yaw_carry), (0, 0));
    turn(&mut c, -500, 0, Vec3::zero());
    assert_eq!((c.yaw, c.yaw_carry), (0, -500));
    turn(&mut c, 1200, 0, Vec3::zero());
    assert_eq!((c.yaw, c.yaw_carry), (1, 100));
}

#[test]
fn turn_splits_travel_into_steps_and_carry() {
    assert_eq!(jumpyball::camera::turn(0, 1000, 600), (1, 400));
    assert_eq!(jumpyball::camera::turn(400, 1000, 600), (2, 200));
    assert_eq!(jumpyball::camera::turn(0, -1000, 600), (-1, -400));
    assert_eq!(jumpyball::camera::turn(-599, i32::MIN, 600), (-3_579_140, -247));
    assert_eq!(jumpyball::camera::turn(599, i32::MAX, 600), (3_579_140, 246));
    assert_eq!(jumpyball::camera::turn(0, 5, 1), (5, 0));
}

#[test]
fn pitch_stops_at_the_ends_of_its_range() {
    let mut c = OrbitCamera::new();
    turn(&mut c, 0, 600_000, Vec3::zero());
    assert_eq!(c.pitch, 785);
    turn(&mut c, 0, 600, Vec3::zero());
    assert_eq!(c.pitch, 785);
    turn(&mut c, 0, -2_000_000, Vec3::zero());
    assert_eq!(c.pitch, -785);
    turn(&mut c, 0, i32::MIN, Vec3::zero());
    assert_eq!(c.pitch, -785);
    assert!(c.is_valid());
    let mut bad = OrbitCamera::new();
    bad.yaw_carry = 600;
    assert!(!bad.is_valid());
    bad.yaw_carry = 0;
    bad.pitch_carry = -600;
    assert!(!bad.is_valid());
}

#[test]
fn yaw_is_not_clamped() {
    let mut c = OrbitCamera::new();
    for _ in 0..10 {
        turn(&mut c, 6_000_000, 0, Vec3::zero());
    }
    assert_eq!(c.yaw, 100_000);
    for _ in 0..30 {
        turn(&mut c, -6_000_000, 0, Vec3::zero());
    }
    assert_eq!(c.yaw, -200_000);
}

#[test]
fn level_camera_stands_behind_the_player() {
    let mut c = OrbitCamera::new();
    turn(&mut c, 0, 0, Vec3::new(1000, 2000, 3000));
    let o = Orientation { yaw: Heading { sin: 0, cos: 1000 }, pitch: Heading { sin: 0, cos: 1000 } };
    assert_eq!(
        c.update_camera(&o),
        CameraPose {
            eye: Vec3::new(1000, 2000, -2000),
            at: Vec3::new(1000, 2000, 3000),
            up: Vec3::new(0, 1000, 0),
        }
    );
}

#[test]
fn eye_orbits_with_yaw_and_pitch() {
    let mut c = OrbitCamera::new();
    turn(&mut c, 0, 0, Vec3::new(1000, 2000, 3000));
    // a quarter turn of yaw
    let side = Orientation { yaw: Heading { sin: 1000, cos: 0 }, pitch: Heading { sin: 0, cos: 1000 } };
    assert_eq!(c.update_camera(&side).eye, Vec3::new(6000, 2000, 3000));
    // sine 0.6 and cosine 0.8 of pitch
    let tilted =
        Orientation { yaw: Heading { sin: 0, cos: 1000 }, pitch: Heading { sin: 600, cos: 800 } };
    assert_eq!(c.update_camera(&tilted).eye, Vec3::new(1000, 5000, -1000));
    // both, with sine 0.707 and cosine 0.707 of yaw
    let both =
        Orientation { yaw: Heading { sin: 707, cos: 707 }, pitch: Heading { sin: -600, cos: 800 } };
    assert_eq!(c.update_camera(&both).eye, Vec3::new(3828, -1000, 172));
}

#[test]
fn eye_stops_at_the_end_of_the_range() {
    let mut c = OrbitCamera::configured(i32::MAX, -785, 785, 600).unwrap();
    turn(&mut c, 0, 0, Vec3::new(0, i32::MAX, i32::MIN));
    let o = Orientation { yaw: Heading { sin: 0, cos: 1000 }, pitch: Heading { sin: 1000, cos: 1000 } };
    let pose = c.update_camera(&o);
    assert_eq!(pose.eye, Vec3::new(0, i32::MAX, i32::MIN));
}
