use jumpyball::camera::Heading;
use jumpyball::geometry::Vec3;
use jumpyball::player::{roll, rotate, FloorPolicy, Input, Player, Settings, Spin};

fn idle() -> Input {
    Input {
        jump_down: false,
        axis_x: 0,
        axis_z: 0,
        heading: Heading { sin: 0, cos: 1000 },
        mouse_dx: 0,
        mouse_dy: 0,
    }
}

#[test]
fn standard_settings() {
    let s = Settings::standard();
    assert_eq!(s.radius, 1000);
    assert_eq!(s.speed, 200);
    assert_eq!(s.gravity, -30);
    assert_eq!(s.jump_multiplier, 3);
    assert_eq!(s.floor, 1000);
    assert_eq!(s.floor_policy, FloorPolicy::Land);
    assert_eq!(s.roll_circumference, 6283);
    assert!(s.is_valid());
}

#[test]
fn settings_need_a_radius_and_a_circumference() {
    let mut s = Settings::standard();
    s.radius = 0;
    assert!(!s.is_valid());
    let mut s = Settings::standard();
    s.roll_circumference = 0;
    assert!(!s.is_valid());
    let mut s = Settings::standard();
    s.radius = 1_000_000_001;
    assert!(!s.is_valid());
}

#[test]
fn new_player_is_at_rest() {
    let p = Player::new(Vec3::new(1, 2, 3), 500).unwrap();
    assert_eq!(p.position, Vec3::new(1, 2, 3));
    assert_eq!(p.velocity, Vec3::zero());
    assert_eq!(p.radius, 500);
    assert_eq!(p.jump_count, 0);
    assert_eq!(p.spin, Spin { xy: 0, yz: 0 });
    assert!(p.is_valid());
    assert_eq!(Player::new(Vec3::zero(), 0), None);
    assert_eq!(Player::new(Vec3::zero(), -5), None);
}

#[test]
fn sphere_is_built_from_the_current_state() {
    let mut p = Player::new(Vec3::new(1, 2, 3), 500).unwrap();
    p.position = Vec3::new(7, 8, 9);
    let s = p.sphere();
    assert_eq!(s.center, Vec3::new(7, 8, 9));
    assert_eq!(s.radius, 500);
}

#[test]
fn jump_sets_the_impulse_and_counts() {
    let s = Settings::standard();
    let mut p = Player::new(Vec3::zero(), 1000).unwrap();
    p.velocity = Vec3::new(5, -90, 6);
    p.jump(&s);
    assert_eq!(p.velocity, Vec3::new(5, 600, 6));
    assert_eq!(p.jump_count, 1);
    p.jump(&s);
    assert_eq!(p.velocity.y, 600);
    assert_eq!(p.jump_count, 2);
}

#[test]
fn advance_adds_gravity_then_moves() {
    let s = Settings::standard();
    let mut p = Player::new(Vec3::new(0, 3000, 0), 1000).unwrap();
    p.advance(&idle(), &s);
    assert_eq!(p.velocity, Vec3::new(0, -30, 0));
    assert_eq!(p.position, Vec3::new(0, 2970, 0));
    p.advance(&idle(), &s);
    assert_eq!(p.velocity, Vec3::new(0, -60, 0));
    assert_eq!(p.position, Vec3::new(0, 2910, 0));
}

#[test]
fn horizontal_motion_does_not_build_up() {
    let s = Settings::standard();
    let mut p = Player::new(Vec3::new(0, 3000, 0), 1000).unwrap();
    let mut push = idle();
    push.axis_x = 1000;
    push.axis_z = -1000;
    p.advance(&push, &s);
    assert_eq!(p.position.x, 200);
    assert_eq!(p.position.z, -200);
    p.advance(&push, &s);
    assert_eq!(p.position.x, 400);
    assert_eq!(p.position.z, -400);
    p.advance(&idle(), &s);
    assert_eq!(p.position.x, 400);
    assert_eq!(p.position.z, -400);
    assert_eq!(p.velocity.x, 0);
    assert_eq!(p.velocity.z, 0);
}

#[test]
fn rotate_turns_x_toward_z() {
    let quarter = Heading { sin: 1000, cos: 0 };
    assert_eq!(rotate(1000, 0, &quarter), (0, 1000));
    assert_eq!(rotate(0, 1000, &quarter), (-1000, 0));
    let none = Heading { sin: 0, cos: 1000 };
    assert_eq!(rotate(1000, -1000, &none), (1000, -1000));
    let eighth = Heading { sin: 707, cos: 707 };
    assert_eq!(rotate(1000, 0, &eighth), (707, 707));
    assert_eq!(rotate(1000, 1000, &eighth), (0, 1414));
    assert_eq!(rotate(-1000, 500, &eighth), (-1060, -353));
}

#[test]
fn movement_follows_the_heading() {
    let s = Settings::standard();
    let mut p = Player::new(Vec3::new(0, 3000, 0), 1000).unwrap();
    let mut push = idle();
    push.axis_z = -1000;
    push.heading = Heading { sin: 1000, cos: 0 };
    p.advance(&push, &s);
    assert_eq!(p.position, Vec3::new(200, 2970, 0));
    assert_eq!(p.velocity, Vec3::new(200, -30, 0));
}

#[test]
fn positions_stop_at_the_end_of_the_range() {
    let s = Settings::standard();
    let mut p = Player::new(Vec3::new(i32::MAX - 100, i32::MIN + 10, 0), 1000).unwrap();
    let mut push = idle();
    push.axis_x = 1000;
    p.advance(&push, &s);
    assert_eq!(p.position, Vec3::new(i32::MAX, i32::MIN, 0));
}

#[test]
fn solid_floor_catches_the_player() {
    let s = Settings::standard();
    let mut p = Player::new(Vec3::new(40, 999, 50), 1000).unwrap();
    p.velocity = Vec3::new(1, -500, 2);
    p.jump_count = 2;
    p.ground_check(&s, &Vec3::new(7, 7000, 7));
    assert_eq!(p.position, Vec3::new(40, 1000, 50));
    assert_eq!(p.velocity, Vec3::new(1, 0, 2));
    assert_eq!(p.jump_count, 0);
}

#[test]
fn player_at_or_above_the_floor_is_left_alone() {
    let s = Settings::standard();
    let mut p = Player::new(Vec3::new(40, 1000, 50), 1000).unwrap();
    p.velocity = Vec3::new(1, -500, 2);
    p.jump_count = 1;
    let before = p;
    p.ground_check(&s, &Vec3::new(7, 7000, 7));
    assert_eq!(p, before);
}

#[test]
fn open_floor_sends_the_player_back_to_the_start() {
    let mut s = Settings::standard();
    s.floor_policy = FloorPolicy::Respawn;
    s.floor = -5000;
    let mut p = Player::new(Vec3::new(40, -5001, 50), 1000).unwrap();
    p.velocity = Vec3::new(1, -500, 2);
    p.jump_count = 2;
    p.ground_check(&s, &Vec3::new(7, 7000, 8));
    assert_eq!(p.position, Vec3::new(7, 7000, 8));
    assert_eq!(p.velocity, Vec3::new(1, 0, 2));
    assert_eq!(p.jump_count, 0);
}

#[test]
fn roll_is_distance_over_circumference() {
    // 200 / 6283 of a turn is 31.8 thousandths
    assert_eq!(roll(200, 0, 6283), 31);
    assert_eq!(roll(-200, 0, 6283), -31);
    assert_eq!(roll(6283, 0, 6283), 1000);
    assert_eq!(roll(0, 0, 6283), 0);
}

#[test]
fn roll_is_halved_after_one_jump_and_doubled_after_two() {
    assert_eq!(roll(200, 1, 6283), 15);
    assert_eq!(roll(-200, 1, 6283), -15);
    assert_eq!(roll(200, 2, 6283), 63);
    assert_eq!(roll(-200, 2, 6283), -63);
}

#[test]
fn spin_comes_from_the_horizontal_velocity() {
    let s = Settings::standard();
    let mut p = Player::new(Vec3::zero(), 1000).unwrap();
    p.velocity = Vec3::new(200, -999, 141);
    p.roll(&s);
    assert_eq!(p.spin, Spin { xy: 31, yz: -22 });
    p.jump_count = 2;
    p.roll(&s);
    assert_eq!(p.spin, Spin { xy: 63, yz: -44 });
    p.jump_count = 1;
    p.roll(&s);
    assert_eq!(p.spin, Spin { xy: 15, yz: -11 });
}
