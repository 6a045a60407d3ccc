use jumpyball::geometry::{BoundingBox, Vec3};
use jumpyball::level::{new_level, player_touching_end, Goal};
use jumpyball::player::Player;

#[test]
fn player_at_the_goal_touches_it() {
    let g = Goal::new(Vec3::new(0, 0, 0));
    let p = Player::new(Vec3::new(0, 0, 0), 1000).unwrap();
    assert!(player_touching_end(&p, &g));
}

#[test]
fn player_two_units_off_does_not_touch_the_goal() {
    let g = Goal::new(Vec3::new(0, 0, 0));
    let p = Player::new(Vec3::new(2000, 0, 0), 1000).unwrap();
    assert!(!player_touching_end(&p, &g));
}

#[test]
fn goal_volume_is_half_a_unit_wide_and_one_unit_high() {
    let g = Goal::new(Vec3::new(100, 200, 300));
    assert_eq!(
        g.bounds(),
        BoundingBox { min_x: -400, max_x: 600, min_y: -800, max_y: 1200, min_z: -200, max_z: 800 }
    );
}

#[test]
fn goal_is_reached_at_exactly_one_radius() {
    let g = Goal::new(Vec3::new(0, 0, 0));
    let at = Player::new(Vec3::new(1500, 0, 0), 1000).unwrap();
    assert!(player_touching_end(&at, &g));
    let past = Player::new(Vec3::new(1501, 0, 0), 1000).unwrap();
    assert!(!player_touching_end(&past, &g));
    let above = Player::new(Vec3::new(0, 2000, 0), 1000).unwrap();
    assert!(player_touching_end(&above, &g));
    let higher = Player::new(Vec3::new(0, 2001, 0), 1000).unwrap();
    assert!(!player_touching_end(&higher, &g));
}

#[test]
fn touching_the_goal_leaves_the_player_alone() {
    let g = Goal::new(Vec3::new(0, 0, 0));
    let p = Player::new(Vec3::new(300, 0, 0), 1000).unwrap();
    let before = p;
    assert!(player_touching_end(&p, &g));
    assert_eq!(p, before);
}

#[test]
fn goal_volume_at_the_end_of_the_range() {
    let g = Goal::new(Vec3::new(i32::MAX, i32::MIN, 0));
    let b = g.bounds();
    assert_eq!(b.max_x, i32::MAX);
    assert_eq!(b.min_x, i32::MAX - 500);
    assert_eq!(b.min_y, i32::MIN);
    assert_eq!(b.max_y, i32::MIN + 1000);
    let p = Player::new(Vec3::new(i32::MAX, i32::MIN, 0), 1).unwrap();
    assert!(player_touching_end(&p, &g));
}

#[test]
fn new_goal_starts_a_quarter_into_its_period() {
    let g = Goal::new(Vec3::new(1, 2, 3));
    assert_eq!(g.anim_counter, 50);
    assert_eq!(g.position, Vec3::new(1, 2, 3));
}

#[test]
fn goal_sinks_then_rises() {
    let mut g = Goal::new(Vec3::new(0, 10_000, 0));
    g.animate();
    assert_eq!(g.position, Vec3::new(0, 9_995, 0));
    assert_eq!(g.anim_counter, 51);
    for _ in 0..49 {
        g.animate();
    }
    assert_eq!(g.anim_counter, 100);
    assert_eq!(g.position.y, 9_750);
    g.animate();
    assert_eq!(g.anim_counter, 101);
    assert_eq!(g.position.y, 9_755);
    for _ in 0..99 {
        g.animate();
    }
    assert_eq!(g.anim_counter, 200);
    assert_eq!(g.position.y, 10_250);
    g.animate();
    assert_eq!(g.anim_counter, 1);
    assert_eq!(g.position.y, 10_245);
}

#[test]
fn goal_is_back_where_it_was_after_a_full_period() {
    let mut g = Goal::new(Vec3::new(5, 10_000, 6));
    for _ in 0..200 {
        g.animate();
    }
    assert_eq!(g, Goal { position: Vec3::new(5, 10_000, 6), anim_counter: 50 });
}

#[test]
fn goal_counter_beyond_the_period_starts_anew() {
    let mut g = Goal { position: Vec3::zero(), anim_counter: u16::MAX };
    g.animate();
    assert_eq!(g.anim_counter, 1);
    assert_eq!(g.position.y, -5);
}

#[test]
fn new_level_places_the_goal() {
    let boxes = vec![
        BoundingBox::new(0, 1, 0, 1, 0, 1).unwrap(),
        BoundingBox::new(5, 6, 5, 6, 5, 6).unwrap(),
    ];
    let level = new_level(boxes.clone(), Vec3::new(1, 2, 3), Vec3::new(4, 5, 6)).unwrap();
    assert_eq!(level.bounding_boxes, boxes);
    assert_eq!(level.start, Vec3::new(1, 2, 3));
    assert_eq!(level.goal, Goal { position: Vec3::new(4, 5, 6), anim_counter: 50 });
    assert!(level.is_valid());
}

#[test]
fn new_level_without_boxes() {
    let level = new_level(vec![], Vec3::zero(), Vec3::zero()).unwrap();
    assert!(level.bounding_boxes.is_empty());
}

#[test]
fn new_level_refuses_a_box_that_is_not_ordered() {
    let bad = BoundingBox { min_x: 2, max_x: 1, min_y: 0, max_y: 1, min_z: 0, max_z: 1 };
    let good = BoundingBox::new(0, 1, 0, 1, 0, 1).unwrap();
    assert_eq!(new_level(vec![good, bad], Vec3::zero(), Vec3::zero()), None);
    assert_eq!(new_level(vec![bad, good], Vec3::zero(), Vec3::zero()), None);
}
