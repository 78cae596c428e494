use spellcard::fixed::{FULL_TURN, MAX_LENGTH, UNIT};
use spellcard::spell_card::{Bullet, Direction, GameRegion, Quad, Vertex};

const PX: i64 = 1_000_000;

fn direction_of(angle: i64) -> Direction {
    let (sin, cos) = (angle as f64 / UNIT as f64).to_radians().sin_cos();
    let dx = (cos * UNIT as f64).round() as i64;
    let dy = (sin * UNIT as f64).round() as i64;
    Direction::new(dx, dy).unwrap()
}

fn step(region: &mut GameRegion) {
    let directions: Vec<Direction> =
        region.spawn_angles().iter().map(|a| direction_of(*a)).collect();
    assert_eq!(directions.len(), region.ways as usize);
    region.tick(&directions);
}

fn default_region() -> GameRegion {
    GameRegion::new(512 * PX, 512 * PX, 8, 9_600_000, 0, 500_000, 7_500_000, 7_500_000).unwrap()
}

#[test]
fn new_region_is_empty_and_valid() {
    let region = default_region();
    assert!(region.is_valid());
    assert!(region.bullets.is_empty());
    assert_eq!(region.width, 512 * PX);
    assert_eq!(region.height, 512 * PX);
    assert_eq!(region.ways, 8);
    assert_eq!(region.speed_per_frame, 9_600_000);
    assert_eq!(region.angle, 0);
    assert_eq!(region.a_angle, 0);
    assert_eq!(region.a_a_angle, 500_000);
    assert_eq!(region.half_bullet_width, 7_500_000);
    assert_eq!(region.half_bullet_height, 7_500_000);
}

#[test]
fn new_reduces_the_initial_angle() {
    let region = GameRegion::new(PX, PX, 1, 0, -90 * PX, 0, 0, 0).unwrap();
    assert_eq!(region.angle, 270 * PX);
    let region = GameRegion::new(PX, PX, 1, 0, 725 * PX, 0, 0, 0).unwrap();
    assert_eq!(region.angle, 5 * PX);
    let region = GameRegion::new(PX, PX, 1, 0, FULL_TURN, 0, 0, 0).unwrap();
    assert_eq!(region.angle, 0);
    let region = GameRegion::new(PX, PX, 1, 0, -1, 0, 0, 0).unwrap();
    assert_eq!(region.angle, FULL_TURN - 1);
}

#[test]
fn new_rejects_sizes_outside_the_limits() {
    assert!(GameRegion::new(0, PX, 1, 0, 0, 0, 0, 0).is_none());
    assert!(GameRegion::new(PX, 0, 1, 0, 0, 0, 0, 0).is_none());
    assert!(GameRegion::new(-PX, PX, 1, 0, 0, 0, 0, 0).is_none());
    assert!(GameRegion::new(MAX_LENGTH + 1, PX, 1, 0, 0, 0, 0, 0).is_none());
    assert!(GameRegion::new(PX, MAX_LENGTH + 1, 1, 0, 0, 0, 0, 0).is_none());
    assert!(GameRegion::new(PX, PX, 0, 0, 0, 0, 0, 0).is_none());
    assert!(GameRegion::new(PX, PX, 1, MAX_LENGTH + 1, 0, 0, 0, 0).is_none());
    assert!(GameRegion::new(PX, PX, 1, -MAX_LENGTH - 1, 0, 0, 0, 0).is_none());
    assert!(GameRegion::new(PX, PX, 1, 0, 0, 0, -1, 0).is_none());
    assert!(GameRegion::new(PX, PX, 1, 0, 0, 0, 0, -1).is_none());
    assert!(GameRegion::new(PX, PX, 1, 0, 0, 0, MAX_LENGTH + 1, 0).is_none());
    assert!(GameRegion::new(PX, PX, 1, 0, 0, 0, 0, MAX_LENGTH + 1).is_none());
    assert!(GameRegion::new(MAX_LENGTH, MAX_LENGTH, u32::MAX, -MAX_LENGTH, i64::MIN, i64::MAX,
        MAX_LENGTH, MAX_LENGTH).is_some());
    assert!(GameRegion::new(1, 1, 1, 0, 0, 0, 0, 0).is_some());
}

#[test]
fn direction_accepts_unit_vectors_only() {
    assert_eq!(Direction::new(UNIT, 0), Some(Direction { dx: UNIT, dy: 0 }));
    assert_eq!(Direction::new(0, -UNIT), Some(Direction { dx: 0, dy: -UNIT }));
    assert_eq!(
        Direction::new(707_107, -707_107),
        Some(Direction { dx: 707_107, dy: -707_107 })
    );
    assert_eq!(Direction::new(707_106, 707_106), Some(Direction { dx: 707_106, dy: 707_106 }));
    assert_eq!(Direction::new(0, 0), None);
    assert_eq!(Direction::new(UNIT, UNIT), None);
    assert_eq!(Direction::new(UNIT + 1, 0), None);
    assert_eq!(Direction::new(0, -UNIT - 1), None);
    assert_eq!(Direction::new(700_000, 700_000), None);
    assert_eq!(Direction::new(710_000, 710_000), None);
    assert_eq!(Direction::new(i64::MAX, i64::MIN), None);
    // 999_998^2 = UNIT^2 - 3_999_996: just outside the tolerance of 3_000_000
    assert_eq!(Direction::new(999_998, 0), None);
    // 999_999^2 = UNIT^2 - 1_999_999: inside
    assert_eq!(Direction::new(999_999, 0), Some(Direction { dx: 999_999, dy: 0 }));
}

#[test]
fn spawn_angles_divide_the_full_turn() {
    let region = default_region();
    assert_eq!(
        region.spawn_angles(),
        vec![0, 45 * PX, 90 * PX, 135 * PX, 180 * PX, 225 * PX, 270 * PX, 315 * PX]
    );
    let region = GameRegion::new(PX, PX, 3, 0, 10 * PX, 0, 0, 0).unwrap();
    assert_eq!(region.spawn_angles(), vec![10 * PX, 130 * PX, 250 * PX]);
    let region = GameRegion::new(PX, PX, 7, 0, 0, 0, 0, 0).unwrap();
    assert_eq!(
        region.spawn_angles(),
        vec![0, 51_428_571, 102_857_142, 154_285_714, 205_714_285, 257_142_857, 308_571_428]
    );
    let region = GameRegion::new(PX, PX, 2, 0, 350 * PX, 0, 0, 0).unwrap();
    assert_eq!(region.spawn_angles(), vec![350 * PX, 530 * PX]);
    let region = GameRegion::new(PX, PX, 1, 0, 0, 0, 0, 0).unwrap();
    assert_eq!(region.spawn_angles(), vec![0]);
}

#[test]
fn first_tick_spawns_eight_projectiles_at_the_center() {
    let mut region = default_region();
    step(&mut region);
    assert_eq!(region.bullets.len(), 8);
    let diagonal = 707_107;
    let expected = [
        (UNIT, 0),
        (diagonal, diagonal),
        (0, UNIT),
        (-diagonal, diagonal),
        (-UNIT, 0),
        (-diagonal, -diagonal),
        (0, -UNIT),
        (diagonal, -diagonal),
    ];
    for (k, (dx, dy)) in expected.iter().enumerate() {
        let bullet = region.bullets[k];
        assert_eq!((bullet.dx, bullet.dy), (*dx, *dy));
        // one step of 9.6 pixels away from the center (256, 256)
        assert_eq!(bullet.x, 256 * PX + dx * 9_600_000 / UNIT);
        assert_eq!(bullet.y, 256 * PX + dy * 9_600_000 / UNIT);
    }
    assert_eq!(region.bullets[0], Bullet { x: 265_600_000, y: 256_000_000, dx: UNIT, dy: 0 });
    assert_eq!(
        region.bullets[1],
        Bullet { x: 262_788_227, y: 262_788_227, dx: diagonal, dy: diagonal }
    );
    assert_eq!(
        region.bullets[5],
        Bullet { x: 249_211_773, y: 249_211_773, dx: -diagonal, dy: -diagonal }
    );
    assert_eq!(region.a_angle, 500_000);
    assert_eq!(region.angle, 500_000);
}

#[test]
fn tick_with_zero_speed_leaves_the_burst_at_the_center() {
    let mut region =
        GameRegion::new(512 * PX, 512 * PX, 8, 0, 0, 0, 7_500_000, 7_500_000).unwrap();
    step(&mut region);
    assert_eq!(region.bullets.len(), 8);
    for bullet in region.bullets.iter() {
        assert_eq!((bullet.x, bullet.y), (256 * PX, 256 * PX));
    }
}

#[test]
fn velocity_advances_before_the_angle() {
    let mut region = default_region();
    step(&mut region);
    assert_eq!((region.a_angle, region.angle), (500_000, 500_000));
    step(&mut region);
    assert_eq!((region.a_angle, region.angle), (1_000_000, 1_500_000));
    step(&mut region);
    assert_eq!((region.a_angle, region.angle), (1_500_000, 3_000_000));
}

#[test]
fn angle_and_velocity_wrap_into_the_full_turn() {
    let mut region = GameRegion::new(PX, PX, 1, 0, 350 * PX, 200 * PX, PX, PX).unwrap();
    step(&mut region);
    // velocity 200, angle 550 - 360
    assert_eq!((region.a_angle, region.angle), (200 * PX, 190 * PX));
    step(&mut region);
    // velocity 400 - 360, angle 190 + 40
    assert_eq!((region.a_angle, region.angle), (40 * PX, 230 * PX));
    for _ in 0..500 {
        step(&mut region);
        assert!(0 <= region.angle && region.angle < FULL_TURN);
        assert!(0 <= region.a_angle && region.a_angle < FULL_TURN);
    }
}

#[test]
fn negative_acceleration_wraps_upward() {
    let mut region = GameRegion::new(PX, PX, 1, 0, 0, -500_000, PX, PX).unwrap();
    step(&mut region);
    assert_eq!((region.a_angle, region.angle), (359_500_000, 359_500_000));
    step(&mut region);
    assert_eq!((region.a_angle, region.angle), (359_000_000, 358_500_000));
    let mut region = GameRegion::new(PX, PX, 1, 0, 0, i64::MIN, PX, PX).unwrap();
    step(&mut region);
    // i64::MIN lies 54_775_808 below a multiple of the full turn
    assert_eq!(region.a_angle, FULL_TURN - 54_775_808);
    let mut region = GameRegion::new(PX, PX, 1, 0, 0, i64::MAX, PX, PX).unwrap();
    step(&mut region);
    assert_eq!(region.a_angle, 54_775_807);
}

#[test]
fn projectile_is_removed_when_its_box_has_left_the_field() {
    // field 100 wide, projectile 10 wide, flying right at 10 per tick
    let mut region = GameRegion::new(100 * PX, 100 * PX, 1, 10 * PX, 0, 0, 5 * PX, 5 * PX).unwrap();
    let right = vec![Direction { dx: UNIT, dy: 0 }];
    region.tick(&right);
    assert_eq!(region.bullets, vec![Bullet { x: 60 * PX, y: 50 * PX, dx: UNIT, dy: 0 }]);
    for _ in 0..4 {
        region.tick(&right);
    }
    // the first is at 100: its box spans 95..105 and still reaches into the field
    assert_eq!(region.bullets.len(), 5);
    assert_eq!(region.bullets[0].x, 100 * PX);
    region.tick(&right);
    // now at 110: the box spans 105..115 and is outside
    assert_eq!(region.bullets.len(), 5);
    assert_eq!(region.bullets[0].x, 100 * PX);
    assert_eq!(region.bullets[4].x, 60 * PX);
}

#[test]
fn boundary_test_is_exact() {
    // at 105 the box's left edge is exactly on the right border: removed
    let mut region = GameRegion::new(100 * PX, 100 * PX, 1, 55 * PX, 0, 0, 5 * PX, 5 * PX).unwrap();
    region.tick(&vec![Direction { dx: UNIT, dy: 0 }]);
    assert!(region.bullets.is_empty());
    // one millionth less and it stays
    let mut region =
        GameRegion::new(100 * PX, 100 * PX, 1, 55 * PX - 1, 0, 0, 5 * PX, 5 * PX).unwrap();
    region.tick(&vec![Direction { dx: UNIT, dy: 0 }]);
    assert_eq!(region.bullets, vec![Bullet { x: 105 * PX - 1, y: 50 * PX, dx: UNIT, dy: 0 }]);
    // the same on the left, at the top and at the bottom
    let mut region = GameRegion::new(100 * PX, 100 * PX, 1, 55 * PX, 0, 0, 5 * PX, 5 * PX).unwrap();
    region.tick(&vec![Direction { dx: -UNIT, dy: 0 }]);
    assert!(region.bullets.is_empty());
    let mut region =
        GameRegion::new(100 * PX, 100 * PX, 1, 55 * PX - 1, 0, 0, 5 * PX, 5 * PX).unwrap();
    region.tick(&vec![Direction { dx: -UNIT, dy: 0 }]);
    assert_eq!(region.bullets, vec![Bullet { x: -5 * PX + 1, y: 50 * PX, dx: -UNIT, dy: 0 }]);
    let mut region = GameRegion::new(100 * PX, 100 * PX, 1, 55 * PX, 0, 0, 5 * PX, 5 * PX).unwrap();
    region.tick(&vec![Direction { dx: 0, dy: -UNIT }]);
    assert!(region.bullets.is_empty());
    let mut region = GameRegion::new(100 * PX, 100 * PX, 1, 55 * PX, 0, 0, 5 * PX, 5 * PX).unwrap();
    region.tick(&vec![Direction { dx: 0, dy: UNIT }]);
    assert!(region.bullets.is_empty());
    let mut region =
        GameRegion::new(100 * PX, 100 * PX, 1, 55 * PX - 1, 0, 0, 5 * PX, 5 * PX).unwrap();
    region.tick(&vec![Direction { dx: 0, dy: UNIT }]);
    assert_eq!(region.bullets, vec![Bullet { x: 50 * PX, y: 105 * PX - 1, dx: 0, dy: UNIT }]);
}

#[test]
fn culling_keeps_the_order_of_the_survivors() {
    // a wide, low field: what flies down leaves early, what flies right stays
    let mut region = GameRegion::new(1000 * PX, 100 * PX, 2, 20 * PX, 0, 0, 5 * PX, 5 * PX).unwrap();
    let burst = vec![Direction { dx: UNIT, dy: 0 }, Direction { dx: 0, dy: UNIT }];
    for _ in 0..5 {
        region.tick(&burst);
    }
    // down: y = 50 + 20 t is out of sight from 110 on (t = 3)
    let right = |t: i64| Bullet { x: (500 + 20 * t) * PX, y: 50 * PX, dx: UNIT, dy: 0 };
    let down = |t: i64| Bullet { x: 500 * PX, y: (50 + 20 * t) * PX, dx: 0, dy: UNIT };
    assert_eq!(
        region.bullets,
        vec![right(5), right(4), right(3), right(2), down(2), right(1), down(1)]
    );
}

#[test]
fn negative_speed_flies_backward_and_rounds_toward_zero() {
    let mut region = GameRegion::new(100 * PX, 100 * PX, 2, -1_500_001, 0, 0, PX, PX).unwrap();
    region.tick(&vec![
        Direction { dx: 707_107, dy: 707_107 },
        Direction { dx: -707_107, dy: -707_107 },
    ]);
    // 707107 * 1500001 = 1060661207107, a millionth of which is 1060661.2
    assert_eq!(
        region.bullets,
        vec![
            Bullet { x: 50 * PX - 1_060_661, y: 50 * PX - 1_060_661, dx: 707_107, dy: 707_107 },
            Bullet { x: 50 * PX + 1_060_661, y: 50 * PX + 1_060_661, dx: -707_107, dy: -707_107 },
        ]
    );
}

#[test]
fn population_stays_within_ways_times_ticks() {
    let mut region = default_region();
    for t in 1..=120usize {
        step(&mut region);
        assert!(region.bullets.len() <= 8 * t);
        assert!(region.is_valid());
        for bullet in region.bullets.iter() {
            assert!(bullet.x + region.half_bullet_width > 0);
            assert!(bullet.x - region.half_bullet_width < region.width);
            assert!(bullet.y + region.half_bullet_height > 0);
            assert!(bullet.y - region.half_bullet_height < region.height);
        }
    }
    // a projectile flies 27 ticks along an axis and at most 39 along a diagonal
    assert!(region.bullets.len() >= 8 * 27);
    assert!(region.bullets.len() <= 8 * 39);
}

#[test]
fn axis_projectile_lives_twenty_seven_ticks() {
    let mut region =
        GameRegion::new(512 * PX, 512 * PX, 1, 9_600_000, 0, 0, 7_500_000, 7_500_000).unwrap();
    let right = vec![Direction { dx: UNIT, dy: 0 }];
    for t in 1..=27usize {
        region.tick(&right);
        assert_eq!(region.bullets.len(), t);
    }
    // 256 + 27 * 9.6 = 515.2 < 519.5, 256 + 28 * 9.6 = 524.8 >= 519.5
    assert_eq!(region.bullets[0].x, 515_200_000);
    for _ in 0..10 {
        region.tick(&right);
        assert_eq!(region.bullets.len(), 27);
        assert_eq!(region.bullets[0].x, 515_200_000);
        assert_eq!(region.bullets[26].x, 265_600_000);
    }
}

#[test]
fn equal_patterns_stay_equal() {
    let mut first = default_region();
    let mut second = default_region();
    for _ in 0..60 {
        step(&mut first);
        step(&mut second);
        assert_eq!(first.bullets, second.bullets);
        assert_eq!((first.angle, first.a_angle), (second.angle, second.a_angle));
    }
    assert!(!first.bullets.is_empty());
}

#[test]
fn tick_leaves_the_configuration_unchanged() {
    let mut region = default_region();
    for _ in 0..5 {
        step(&mut region);
    }
    assert_eq!(region.width, 512 * PX);
    assert_eq!(region.height, 512 * PX);
    assert_eq!(region.ways, 8);
    assert_eq!(region.speed_per_frame, 9_600_000);
    assert_eq!(region.a_a_angle, 500_000);
    assert_eq!(region.half_bullet_width, 7_500_000);
    assert_eq!(region.half_bullet_height, 7_500_000);
}

#[test]
fn is_valid_detects_a_broken_invariant() {
    let mut region = default_region();
    step(&mut region);
    assert!(region.is_valid());
    region.angle = FULL_TURN;
    assert!(!region.is_valid());
    region.angle = 0;
    region.a_angle = -1;
    assert!(!region.is_valid());
    region.a_angle = 0;
    assert!(region.is_valid());
    region.bullets.push(Bullet { x: -8 * PX, y: 0, dx: UNIT, dy: 0 });
    assert!(!region.is_valid());
    region.bullets.pop();
    region.bullets.push(Bullet { x: 10 * PX, y: 10 * PX, dx: UNIT, dy: UNIT });
    assert!(!region.is_valid());
    region.bullets.pop();
    region.bullets.push(Bullet { x: i64::MAX, y: i64::MIN, dx: UNIT, dy: 0 });
    assert!(!region.is_valid());
    region.bullets.pop();
    assert!(region.is_valid());
    region.ways = 0;
    assert!(!region.is_valid());
    region.ways = 8;
    region.width = 0;
    assert!(!region.is_valid());
}

#[test]
fn in_sight_tests_the_bounding_box() {
    let region = default_region();
    let at = |x: i64, y: i64| Bullet { x, y, dx: UNIT, dy: 0 };
    assert!(region.in_sight(&at(256 * PX, 256 * PX)));
    assert!(region.in_sight(&at(-7_499_999, 256 * PX)));
    assert!(!region.in_sight(&at(-7_500_000, 256 * PX)));
    assert!(region.in_sight(&at(519_499_999, 256 * PX)));
    assert!(!region.in_sight(&at(519_500_000, 256 * PX)));
    assert!(region.in_sight(&at(256 * PX, -7_499_999)));
    assert!(!region.in_sight(&at(256 * PX, -7_500_000)));
    assert!(region.in_sight(&at(256 * PX, 519_499_999)));
    assert!(!region.in_sight(&at(256 * PX, 519_500_000)));
}

#[test]
fn upload_gives_the_corners_in_device_coordinates() {
    let region = default_region();
    let quad = region.upload(&Bullet { x: 256 * PX, y: 256 * PX, dx: UNIT, dy: 0 });
    // 7.5 / 256 = 0.029296875
    assert_eq!(
        quad,
        Quad {
            left_top: Vertex { x: -29_296, y: 29_296 },
            right_top: Vertex { x: 29_296, y: 29_296 },
            left_bottom: Vertex { x: -29_296, y: -29_296 },
            right_bottom: Vertex { x: 29_296, y: -29_296 },
        }
    );
    let quad = region.upload(&Bullet { x: 128 * PX, y: 384 * PX, dx: UNIT, dy: 0 });
    // x: 120.5 and 135.5 of 512, y: 376.5 and 391.5 of 512
    assert_eq!(
        quad,
        Quad {
            left_top: Vertex { x: -529_296, y: -470_703 },
            right_top: Vertex { x: -470_703, y: -470_703 },
            left_bottom: Vertex { x: -529_296, y: -529_296 },
            right_bottom: Vertex { x: -470_703, y: -529_296 },
        }
    );
}

#[test]
fn upload_maps_the_field_to_the_unit_square() {
    let region = GameRegion::new(200 * PX, 100 * PX, 1, 0, 0, 0, 100 * PX, 50 * PX).unwrap();
    let quad = region.upload(&Bullet { x: 100 * PX, y: 50 * PX, dx: UNIT, dy: 0 });
    assert_eq!(
        quad,
        Quad {
            left_top: Vertex { x: -UNIT, y: UNIT },
            right_top: Vertex { x: UNIT, y: UNIT },
            left_bottom: Vertex { x: -UNIT, y: -UNIT },
            right_bottom: Vertex { x: UNIT, y: -UNIT },
        }
    );
    // a box that hangs over the border maps beyond the unit square
    let quad = region.upload(&Bullet { x: 250 * PX, y: -25 * PX, dx: UNIT, dy: 0 });
    assert_eq!(
        quad,
        Quad {
            left_top: Vertex { x: 500_000, y: 2_500_000 },
            right_top: Vertex { x: 2_500_000, y: 2_500_000 },
            left_bottom: Vertex { x: 500_000, y: 500_000 },
            right_bottom: Vertex { x: 2_500_000, y: 500_000 },
        }
    );
}

#[test]
fn center_quad_is_centered() {
    let region = default_region();
    let quad = region.center_quad(25 * PX, 25 * PX);
    // 25 / 256 = 0.09765625
    assert_eq!(
        quad,
        Quad {
            left_top: Vertex { x: -97_656, y: 97_656 },
            right_top: Vertex { x: 97_656, y: 97_656 },
            left_bottom: Vertex { x: -97_656, y: -97_656 },
            right_bottom: Vertex { x: 97_656, y: -97_656 },
        }
    );
    let quad = region.center_quad(0, 64 * PX);
    assert_eq!(quad.left_top, Vertex { x: 0, y: 250_000 });
    assert_eq!(quad.right_bottom, Vertex { x: 0, y: -250_000 });
}

#[test]
fn coordinates_are_packed_corner_by_corner() {
    let quad = Quad {
        left_top: Vertex { x: 1, y: 2 },
        right_top: Vertex { x: 3, y: 4 },
        left_bottom: Vertex { x: 5, y: 6 },
        right_bottom: Vertex { x: 7, y: 8 },
    };
    assert_eq!(quad.coordinates(), [1, 2, 3, 4, 5, 6, 7, 8]);
}
