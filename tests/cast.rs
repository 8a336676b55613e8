use raycaster::angle::{angle_to_normal_range, floor_div_mod};
use raycaster::caster::{cast_ray, quadrant_signs, RayCaster, TrigTable};
use raycaster::frame::Player;
use raycaster::grid::{Grid, Vec2, Wall};
use raycaster::{DOF, SCALE, TURN};

fn table() -> TrigTable {
    let mut cos = Vec::new();
    let mut sin = Vec::new();
    for i in 0..TURN {
        let a = i as f64 * std::f64::consts::PI * 2.0 / TURN as f64;
        cos.push((a.cos() * SCALE as f64).round() as i64);
        sin.push((a.sin() * SCALE as f64).round() as i64);
    }
    TrigTable::from_parts(cos, sin).unwrap()
}

fn bordered_map() -> Grid {
    let mut map = Grid::empty(10);
    for i in 0..10 {
        for j in 0..10 {
            if j == 0 || i == 0 || j == 9 || i == 9 {
                map.set(i, j, Wall::Wall);
            }
        }
    }
    map
}

fn fixed(v: f64) -> i64 {
    (v * SCALE as f64).round() as i64
}

fn close_to(distance: i64, expected: f64) -> bool {
    (distance as f64 / SCALE as f64 - expected).abs() < 0.001
}

#[test]
fn cast_test() {
    let map = bordered_map();
    let table = table();
    let mut caster = RayCaster { x: fixed(2.0), y: fixed(6.0), angle: 0 };
    let distance = caster.cast(&map, &table);
    println!("{} | expected : 7.0", distance);
    assert!(distance == fixed(7.0));
    caster.angle = TURN / 4;
    let distance = caster.cast(&map, &table);
    println!("{} | expected : 5.0", distance);
    assert!(distance == fixed(5.0));
    caster.angle = TURN / 2;
    let distance = caster.cast(&map, &table);
    println!("{} | expected : 1.0", distance);
    assert!(distance == fixed(1.0));
    caster.angle = 3 * TURN / 4;
    let distance = caster.cast(&map, &table);
    println!("{} | expected : 3.0", distance);
    assert!(distance == fixed(3.0));
    caster = RayCaster { x: fixed(6.4), y: fixed(3.7), angle: 0 };
    let distance = caster.cast(&map, &table);
    println!("{} | expected : 2.6", distance);
    assert!(close_to(distance, 2.6));
    caster.angle = TURN / 4;
    let distance = caster.cast(&map, &table);
    println!("{} | expected : 2.7", distance);
    assert!(close_to(distance, 2.7));
    caster.angle = TURN / 2;
    let distance = caster.cast(&map, &table);
    println!("{} | expected : 5.4", distance);
    assert!(close_to(distance, 5.4));
    caster.angle = 3 * TURN / 4;
    let distance = caster.cast(&map, &table);
    println!("{} | expected : 5.3", distance);
    assert!(close_to(distance, 5.3));
}

#[test]
fn bordered_constructor_matches_loop() {
    let a = Grid::bordered(10);
    let b = bordered_map();
    for r in 0..10 {
        for c in 0..10 {
            assert_eq!(a.get(r, c), b.get(r, c));
        }
    }
    assert_eq!(a.get(0, 4), Wall::Wall);
    assert_eq!(a.get(4, 4), Wall::Empty);
}

#[test]
fn viewer_at_centre_facing_east_sees_four_cells() {
    let map = Grid::bordered(10);
    let caster = RayCaster { x: fixed(5.0), y: fixed(5.0), angle: 0 };
    assert_eq!(caster.cast(&map, &table()), 4 * SCALE);
}

#[test]
fn from_player_copies_position_and_angle() {
    let p = Player { x: 7, y: -3, angle: 99 };
    let c = RayCaster::from_player(&p);
    assert_eq!((c.x, c.y, c.angle), (7, -3, 99));
}

#[test]
fn cast_same_after_whole_turns() {
    let map = Grid::bordered(10);
    let t = table();
    for &a in &[0i64, 1000, 12345, 40000, 65535] {
        let c1 = RayCaster { x: fixed(3.3), y: fixed(6.1), angle: a };
        let c2 = RayCaster { x: fixed(3.3), y: fixed(6.1), angle: a + TURN };
        let c3 = RayCaster { x: fixed(3.3), y: fixed(6.1), angle: a - 3 * TURN };
        assert_eq!(c1.cast(&map, &t), c2.cast(&map, &t));
        assert_eq!(c1.cast(&map, &t), c3.cast(&map, &t));
    }
}

#[test]
fn cast_stays_within_depth_of_field() {
    let map = Grid::bordered(10);
    let t = table();
    for &(x, y) in &[(5.0, 5.0), (1.01, 8.99), (-50.0, 3.0), (400.5, -20.25)] {
        for a in (0..TURN).step_by(977) {
            let d = RayCaster { x: fixed(x), y: fixed(y), angle: a }.cast(&map, &t);
            assert!(0 <= d && d <= DOF * SCALE);
        }
    }
}

#[test]
fn ray_outside_grid_reports_depth_of_field() {
    let map = Grid::bordered(10);
    let d = RayCaster { x: fixed(-100.0), y: fixed(5.0), angle: TURN / 2 }.cast(&map, &table());
    assert_eq!(d, DOF * SCALE);
}

#[test]
fn larger_depth_of_field_never_reports_less() {
    let map = Grid::bordered(10);
    let o = Vec2 { x: fixed(1.5), y: fixed(5.5) };
    let short = cast_ray(&map, o, SCALE, 0, 2);
    let long = cast_ray(&map, o, SCALE, 0, 20);
    assert_eq!(short, 2 * SCALE);
    assert_eq!(long, fixed(7.5));
    assert!(short <= long);
    // a wall within the smaller cap is found at the same distance
    assert_eq!(cast_ray(&map, o, -SCALE, 0, 2), cast_ray(&map, o, -SCALE, 0, 20));
    assert_eq!(cast_ray(&map, o, -SCALE, 0, 2), SCALE / 2);
}

#[test]
fn diagonal_ray_takes_y_crossing_on_ties() {
    let map = Grid::bordered(10);
    let o = Vec2 { x: fixed(5.5), y: fixed(5.5) };
    let d = cast_ray(&map, o, 46341, 46341, DOF);
    // the fourth y crossing, 3.5 cells along y, enters row 9 first
    assert_eq!(d, 229376 * SCALE / 46341);
}

#[test]
fn zero_direction_reports_depth_of_field() {
    let map = Grid::bordered(10);
    let o = Vec2 { x: fixed(5.5), y: fixed(5.5) };
    assert_eq!(cast_ray(&map, o, 0, 0, DOF), DOF * SCALE);
}

#[test]
fn inner_wall_stops_ray() {
    let mut map = Grid::bordered(10);
    map.set(5, 7, Wall::Wall);
    let o = Vec2 { x: fixed(2.25), y: fixed(5.5) };
    assert_eq!(cast_ray(&map, o, SCALE, 0, DOF), fixed(4.75));
}

#[test]
fn wall_lookup_by_position() {
    let map = Grid::bordered(10);
    assert!(map.is_wall_at_position(Vec2 { x: fixed(0.5), y: fixed(4.0) }));
    assert!(!map.is_wall_at_position(Vec2 { x: fixed(4.5), y: fixed(4.5) }));
    assert!(!map.is_wall_at_position(Vec2 { x: 0, y: fixed(4.0) }));
    assert!(!map.is_wall_at_position(Vec2 { x: fixed(10.0), y: fixed(4.0) }));
    assert!(!map.is_wall_at_position(Vec2 { x: fixed(-3.0), y: fixed(-3.0) }));
    assert!(map.is_wall_at_position(Vec2 { x: fixed(9.99), y: fixed(9.99) }));
}

#[test]
fn vectors_add_and_subtract() {
    let a = Vec2 { x: 10, y: -4 };
    let b = Vec2 { x: 3, y: 6 };
    assert_eq!(a.sub(b), Vec2 { x: 7, y: -10 });
    assert_eq!(a.add(b), Vec2 { x: 13, y: 2 });
}

#[test]
fn angles_normalize_into_one_turn() {
    assert_eq!(angle_to_normal_range(0), 0);
    assert_eq!(angle_to_normal_range(-1), TURN - 1);
    assert_eq!(angle_to_normal_range(TURN), 0);
    assert_eq!(angle_to_normal_range(3 * TURN + 5), 5);
    assert_eq!(angle_to_normal_range(-2 * TURN - 7), TURN - 7);
    assert_eq!(angle_to_normal_range(i64::MIN), 0);
    assert_eq!(angle_to_normal_range(i64::MAX), TURN - 1);
}

#[test]
fn floor_division_rounds_down() {
    assert_eq!(floor_div_mod(7, 3), (2, 1));
    assert_eq!(floor_div_mod(-7, 3), (-3, 2));
    assert_eq!(floor_div_mod(-6, 3), (-2, 0));
}

#[test]
fn trig_table_rejects_bad_parts() {
    assert!(TrigTable::from_parts(vec![0; 10], vec![0; 10]).is_none());
    let mut cos = vec![0i64; TURN as usize];
    let sin = vec![0i64; TURN as usize];
    assert!(TrigTable::from_parts(cos.clone(), sin.clone()).is_some());
    cos[17] = SCALE + 1;
    assert!(TrigTable::from_parts(cos, sin).is_none());
}

#[test]
fn trig_lookup_wraps() {
    let t = table();
    assert_eq!(t.cos_at(0), SCALE);
    assert_eq!(t.cos_at(TURN), SCALE);
    assert_eq!(t.sin_at(TURN / 4), SCALE);
    assert_eq!(t.sin_at(-TURN / 4), -SCALE);
}

#[test]
fn lengths_round_down() {
    assert_eq!(Vec2 { x: 3, y: -4 }.get_length(), 5);
    assert_eq!(Vec2 { x: 1, y: 1 }.get_length(), 1);
    assert_eq!(Vec2 { x: 0, y: 0 }.get_length(), 0);
    assert_eq!(Vec2 { x: SCALE, y: 0 }.get_length(), SCALE as u64);
    assert_eq!(Vec2 { x: i64::MIN, y: i64::MIN }.get_length(), 13043817825332782212);
}

#[test]
fn quadrant_bounds_fall_forward() {
    assert_eq!(quadrant_signs(0), (1, 1));
    assert_eq!(quadrant_signs(TURN / 8), (1, -1));
    assert_eq!(quadrant_signs(TURN / 4), (1, -1));
    assert_eq!(quadrant_signs(3 * TURN / 8), (-1, -1));
    assert_eq!(quadrant_signs(TURN / 2), (-1, 1));
    assert_eq!(quadrant_signs(5 * TURN / 8), (-1, 1));
    assert_eq!(quadrant_signs(3 * TURN / 4), (1, 1));
    assert_eq!(quadrant_signs(TURN - 1), (1, 1));
}
