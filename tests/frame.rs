use raycaster::caster::TrigTable;
use raycaster::frame::{
    brightness, column_for_distance, corrected_distance, render_columns, slice_height, Column,
    InputEvent, InputState, Key, Player, FOV, MIN_DISTANCE,
};
use raycaster::grid::Grid;
use raycaster::{DOF, SCALE, TURN};

fn table() -> TrigTable {
    let mut cos = Vec::new();
    let mut sin = Vec::new();
    for i in 0..TURN {
        let a = i as f64 * std::f64::consts::PI * 2.0 / TURN as f64;
        cos.push((a.cos() * SCALE as f64).round() as i64);
        sin.push((a.sin() * SCALE as f64).round() as i64);
    }
    TrigTable::from_parts(cos, sin).unwrap()
}

#[test]
fn height_and_brightness_values() {
    assert_eq!(slice_height(SCALE, 1080), 1080);
    assert_eq!(slice_height(2 * SCALE, 1080), 540);
    assert_eq!(slice_height(4 * SCALE, 1080), 270);
    assert_eq!(slice_height(3 * SCALE, 1000), 333);
    assert_eq!(slice_height(3 * SCALE, 1001), 334);
    assert_eq!(brightness(SCALE), 255);
    assert_eq!(brightness(2 * SCALE), 255);
    assert_eq!(brightness(4 * SCALE), 64);
    assert_eq!(brightness(20 * SCALE), 3);
}

#[test]
fn farther_is_never_brighter_or_taller() {
    let mut last_h = i64::MAX;
    let mut last_b = 255u8;
    let mut d = MIN_DISTANCE;
    while d <= DOF * SCALE {
        let h = slice_height(d, 1080);
        let b = brightness(d);
        assert!(h <= last_h && b <= last_b);
        last_h = h;
        last_b = b;
        d += 997;
    }
}

#[test]
fn fisheye_correction_and_clamp() {
    assert_eq!(corrected_distance(4 * SCALE, SCALE), 4 * SCALE);
    assert_eq!(corrected_distance(4 * SCALE, SCALE / 2), 2 * SCALE);
    assert_eq!(corrected_distance(SCALE / 2, SCALE), MIN_DISTANCE);
    assert_eq!(corrected_distance(0, SCALE), MIN_DISTANCE);
}

#[test]
fn column_is_centred() {
    let c = column_for_distance(4 * SCALE, 1080);
    assert_eq!(c, Column { top: 540 - 135, bottom: 540 + 135, shade: 64 });
}

#[test]
fn input_flags_follow_events() {
    let mut s = InputState::new();
    assert!(!s.handle(InputEvent::KeyDown(Key::Forward)));
    assert!(s.forward);
    assert!(!s.handle(InputEvent::KeyDown(Key::TurnLeft)));
    assert!(!s.handle(InputEvent::KeyUp(Key::Forward)));
    assert!(!s.forward && s.turn_left && !s.back && !s.turn_right);
    assert!(s.handle(InputEvent::KeyDown(Key::Escape)));
    assert!(s.handle(InputEvent::Quit));
    assert!(!s.handle(InputEvent::KeyUp(Key::Escape)));
}

#[test]
fn player_moves_and_turns() {
    let t = table();
    let mut p = Player { x: 5 * SCALE, y: 5 * SCALE, angle: 0 };
    let mut keys = InputState::new();
    keys.forward = true;
    p.integrate(&keys, 10000, &t);
    assert_eq!(p, Player { x: 5 * SCALE + 1966, y: 5 * SCALE, angle: 0 });
    keys.forward = false;
    keys.back = true;
    p.integrate(&keys, 20000, &t);
    assert_eq!(p, Player { x: 5 * SCALE + 1966 - 3932, y: 5 * SCALE, angle: 0 });
    keys.back = false;
    keys.turn_right = true;
    p.integrate(&keys, 10000, &t);
    assert_eq!(p.angle, TURN - 522);
    keys.turn_right = false;
    keys.turn_left = true;
    p.integrate(&keys, 10000, &t);
    assert_eq!(p.angle, 0);
    // facing north, forward moves towards smaller rows
    let mut q = Player { x: 0, y: 0, angle: TURN / 4 };
    keys = InputState::new();
    keys.forward = true;
    q.integrate(&keys, 10000, &t);
    assert_eq!(q, Player { x: 0, y: -1966, angle: TURN / 4 });
    // both movement keys cancel out, and no key leaves the player as it was
    keys.back = true;
    q.integrate(&keys, 10000, &t);
    assert_eq!(q, Player { x: 0, y: -1966, angle: TURN / 4 });
}

#[test]
fn sweep_has_one_column_per_pixel() {
    let map = Grid::bordered(10);
    let t = table();
    let p = Player { x: 5 * SCALE, y: 5 * SCALE, angle: 0 };
    let cols = render_columns(&map, &t, &p, 64, 1080);
    assert_eq!(cols.len(), 64);
    // the middle column looks straight east: four cells away
    let mid = &cols[32];
    assert_eq!(FOV / 2 - FOV * 32 / 64, 0);
    assert_eq!(*mid, column_for_distance(4 * SCALE, 1080));
    for c in &cols {
        assert!(c.top <= c.bottom);
    }
}
