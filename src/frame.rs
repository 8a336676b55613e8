//! The frame controller: player kinematics, input flags and the projection of cast
//! distances onto screen columns.
use vstd::prelude::*;

use crate::angle::{angle_to_normal_range, floor_div_mod, normal_angle};
use crate::caster::{unit_bounded, view_distance, RayCaster, TrigTable};
use crate::grid::{Grid, Vec2};
use crate::ray_lemmas::lemma_floor_ordered;
use crate::{DOF, SCALE, TURN};

verus! {

/// Distance moved per 10 000 microseconds, in fixed-point units (0.03 cells).
pub const MOVE_SPEED: i64 = 1966;

/// Angle turned per 10 000 microseconds, in angle units (0.05 radians).
pub const TURN_SPEED: i64 = 522;

/// The longest frame that kinematics integrates, in microseconds.
pub const MAX_FRAME_MICROS: u64 = 1000000000;

/// The largest coordinate magnitude of a player that can still move.
pub const POSITION_LIMIT: i64 = 1152921504606846976;

/// Width of the field of view, in angle units (100 degrees).
pub const FOV: i64 = 18204;

/// Distances below one cell are raised to it before projection.
pub const MIN_DISTANCE: i64 = SCALE;

/// The largest screen side, in pixels.
pub const MAX_SCREEN: i64 = 1048576;

/// The viewer: a position in fixed-point units and a facing angle in angle units.
#[derive(Clone, Copy, PartialEq, Eq, Structural, Debug)]
pub struct Player {
    pub x: i64,
    pub y: i64,
    pub angle: i64,
}

/// A key the frame controller reacts to.
#[derive(Clone, Copy, PartialEq, Eq, Structural, Debug)]
pub enum Key {
    Forward,
    Back,
    TurnLeft,
    TurnRight,
    Escape,
}

/// A discrete input event.
#[derive(Clone, Copy, PartialEq, Eq, Structural, Debug)]
pub enum InputEvent {
    Quit,
    KeyDown(Key),
    KeyUp(Key),
}

/// Which movement keys are held.
#[derive(Clone, Copy, PartialEq, Eq, Structural, Debug)]
pub struct InputState {
    pub forward: bool,
    pub back: bool,
    pub turn_left: bool,
    pub turn_right: bool,
}

/// `s` with the flag of `key` set to `down`; the escape key has no flag.
pub open spec fn with_key(s: InputState, key: Key, down: bool) -> InputState {
    match key {
        Key::Forward => InputState { forward: down, ..s },
        Key::Back => InputState { back: down, ..s },
        Key::TurnLeft => InputState { turn_left: down, ..s },
        Key::TurnRight => InputState { turn_right: down, ..s },
        Key::Escape => s,
    }
}

/// The flags after `event`.
pub open spec fn after_event(s: InputState, event: InputEvent) -> InputState {
    match event {
        InputEvent::Quit => s,
        InputEvent::KeyDown(k) => with_key(s, k, true),
        InputEvent::KeyUp(k) => with_key(s, k, false),
    }
}

/// Whether `event` asks the frame loop to end.
pub open spec fn ends_loop(event: InputEvent) -> bool {
    event == InputEvent::Quit || event == InputEvent::KeyDown(Key::Escape)
}

impl InputState {
    /// No key held.
    pub fn new() -> (r: InputState)
        ensures
            !r.forward && !r.back && !r.turn_left && !r.turn_right,
    {
        InputState { forward: false, back: false, turn_left: false, turn_right: false }
    }

    /// Records a key press or release, and tells whether the event ends the loop.
    pub fn handle(&mut self, event: InputEvent) -> (quit: bool)
        ensures
            *final(self) == after_event(*old(self), event),
            quit == ends_loop(event),
    {
        match event {
            InputEvent::Quit => true,
            InputEvent::KeyDown(k) => {
                self.set_key(k, true);
                k == Key::Escape
            },
            InputEvent::KeyUp(k) => {
                self.set_key(k, false);
                false
            },
        }
    }

    fn set_key(&mut self, key: Key, down: bool)
        ensures
            *final(self) == with_key(*old(self), key, down),
    {
        match key {
            Key::Forward => self.forward = down,
            Key::Back => self.back = down,
            Key::TurnLeft => self.turn_left = down,
            Key::TurnRight => self.turn_right = down,
            Key::Escape => {},
        }
    }
}

/// `base` per 10 000 microseconds, over `delta_micros` microseconds.
pub open spec fn speed_over(base: int, delta_micros: int) -> int {
    base * delta_micros / 10000
}

/// The player after one frame of `delta_micros` microseconds with `input` held. Moving
/// uses the facing angle at the start of the frame; walls do not stop the player.
pub open spec fn integrated(p: Player, input: InputState, delta_micros: int, table: TrigTable) -> Player {
    let mv = speed_over(MOVE_SPEED as int, delta_micros);
    let tv = speed_over(TURN_SPEED as int, delta_micros);
    let step_x = table.dir_x(p.angle as int) * mv / SCALE as int;
    let step_y = table.dir_y(p.angle as int) * mv / SCALE as int;
    let ahead = if input.forward { 1int } else { 0int } - if input.back { 1int } else { 0int };
    let turn = if input.turn_left { tv } else { 0 } - if input.turn_right { tv } else { 0 };
    Player {
        x: (p.x + if ahead == 1 { step_x } else if ahead == -1 { -step_x } else { 0 }) as i64,
        y: (p.y + if ahead == 1 { step_y } else if ahead == -1 { -step_y } else { 0 }) as i64,
        angle: normal_angle(p.angle + turn) as i64,
    }
}

impl Player {
    /// Advances the player by one frame of `delta_micros` microseconds.
    pub fn integrate(&mut self, input: &InputState, delta_micros: u64, table: &TrigTable)
        requires
            table.wf(),
            -POSITION_LIMIT <= old(self).x <= POSITION_LIMIT,
            -POSITION_LIMIT <= old(self).y <= POSITION_LIMIT,
            delta_micros <= MAX_FRAME_MICROS,
        ensures
            *final(self) == integrated(*old(self), *input, delta_micros as int, *table),
            0 <= final(self).angle < TURN,
    {
        let d: i64 = delta_micros as i64;
        let mv: i64 = MOVE_SPEED * d / 10000;
        let tv: i64 = TURN_SPEED * d / 10000;
        let cos: i64 = table.cos_at(self.angle);
        let sin: i64 = table.sin_at(self.angle);
        proof {
            assert(0 <= mv <= MOVE_SPEED * MAX_FRAME_MICROS / 10000);
            assert(-SCALE * 200000000 <= cos * mv <= SCALE * 200000000) by (nonlinear_arith)
                requires
                    unit_bounded(cos as int),
                    0 <= mv <= 200000000,
            ;
            assert(-SCALE * 200000000 <= (-sin) * mv <= SCALE * 200000000) by (nonlinear_arith)
                requires
                    unit_bounded(sin as int),
                    0 <= mv <= 200000000,
            ;
        }
        let step_x: i64 = floor_div_mod(cos * mv, SCALE).0;
        let step_y: i64 = floor_div_mod(-sin * mv, SCALE).0;
        proof {
            vstd::arithmetic::div_mod::lemma_div_is_ordered(cos * mv, SCALE * 200000000, SCALE as int);
            vstd::arithmetic::div_mod::lemma_div_is_ordered(-SCALE * 200000000, cos * mv, SCALE as int);
            vstd::arithmetic::div_mod::lemma_div_is_ordered((-sin) * mv, SCALE * 200000000, SCALE as int);
            vstd::arithmetic::div_mod::lemma_div_is_ordered(-SCALE * 200000000, (-sin) * mv, SCALE as int);
        }
        if input.forward {
            self.x = self.x + step_x;
            self.y = self.y + step_y;
        }
        if input.back {
            self.x = self.x - step_x;
            self.y = self.y - step_y;
        }
        let start: i64 = angle_to_normal_range(self.angle);
        let mut angle: i64 = start;
        if input.turn_left {
            angle = angle + tv;
        }
        if input.turn_right {
            angle = angle - tv;
        }
        proof {
            let turn = if input.turn_left { tv } else { 0 } - if input.turn_right { tv } else { 0 };
            assert(angle == start + turn);
            vstd::arithmetic::div_mod::lemma_add_mod_noop_right(turn, old(self).angle as int, TURN as int);
            assert(turn + start == start + turn);
        }
        self.angle = angle_to_normal_range(angle);
    }
}

/// `n / d` rounded to the nearest integer, halves rounding up.
pub open spec fn rounded_div(n: int, d: int) -> int {
    (2 * n + d) / (2 * d)
}

/// The height of the wall slice for a distance, in pixels.
pub open spec fn slice_height_of(distance: int, screen_height: int) -> int {
    rounded_div(screen_height * SCALE, distance)
}

/// The grey level for a distance: inverse-square falloff, `255 / (d / 2)^2` rounded,
/// capped at 255.
pub open spec fn brightness_of(distance: int) -> int {
    let b = rounded_div(4 * 255 * SCALE * SCALE, distance * distance);
    if b > 255 {
        255
    } else {
        b
    }
}

/// The wall-slice height, in pixels, for a distance in fixed-point units.
pub fn slice_height(distance: i64, screen_height: i64) -> (h: i64)
    requires
        MIN_DISTANCE <= distance,
        0 <= screen_height <= MAX_SCREEN,
    ensures
        h == slice_height_of(distance as int, screen_height as int),
        0 <= h <= screen_height,
{
    let n: i128 = screen_height as i128 * SCALE as i128;
    let d: i128 = distance as i128;
    assert(0 <= n <= MAX_SCREEN * SCALE) by (nonlinear_arith)
        requires
            n == screen_height * SCALE,
            0 <= screen_height <= MAX_SCREEN,
    ;
    let h: i128 = (2 * n + d) / (2 * d);
    proof {
        assert(2 * n + d <= (2 * screen_height + 1) * d) by (nonlinear_arith)
            requires
                n == screen_height * SCALE,
                d >= SCALE,
                screen_height >= 0,
        ;
        vstd::arithmetic::div_mod::lemma_div_is_ordered(2 * n + d, (2 * screen_height + 1) * d, 2 * d);
        assert((2 * screen_height + 1) * d / (2 * d) <= screen_height) by {
            vstd::arithmetic::div_mod::lemma_fundamental_div_mod((2 * screen_height + 1) * d, 2 * d);
            let q = (2 * screen_height + 1) * d / (2 * d);
            let r = (2 * screen_height + 1) * d % (2 * d);
            assert(q <= screen_height) by (nonlinear_arith)
                requires
                    (2 * screen_height + 1) * d == 2 * d * q + r,
                    0 <= r < 2 * d,
                    d > 0,
            ;
        }
        vstd::arithmetic::div_mod::lemma_div_pos_is_pos(2 * n + d, 2 * d);
    }
    h as i64
}

/// The grey level, 0 to 255, for a distance in fixed-point units.
pub fn brightness(distance: i64) -> (b: u8)
    requires
        MIN_DISTANCE <= distance,
    ensures
        b == brightness_of(distance as int),
{
    let d: u128 = distance as u128;
    proof {
        assert(1 <= d * d <= 0x7fff_ffff_ffff_ffff * 0x7fff_ffff_ffff_ffff) by (nonlinear_arith)
            requires
                1 <= d <= 0x7fff_ffff_ffff_ffff,
        ;
    }
    let dd: u128 = d * d;
    let n: u128 = 4380866641920;
    assert(n == 4 * 255 * SCALE * SCALE);
    let b: u128 = (2 * n + dd) / (2 * dd);
    if b > 255 {
        255
    } else {
        b as u8
    }
}

proof fn lemma_rounded_div_antitone(n: int, d1: int, d2: int)
    requires
        0 <= n,
        0 < d1 <= d2,
    ensures
        rounded_div(n, d2) <= rounded_div(n, d1),
{
    assert((2 * n + d2) * (2 * d1) <= (2 * n + d1) * (2 * d2)) by (nonlinear_arith)
        requires
            0 <= n,
            0 < d1 <= d2,
    ;
    lemma_floor_ordered(2 * n + d2, 2 * d2, 2 * n + d1, 2 * d1);
}

/// Farther walls are drawn no brighter and no taller: from the clamp minimum on,
/// neither the grey level nor the slice height grows with distance.
pub proof fn lemma_projection_monotone(d1: int, d2: int, screen_height: int)
    requires
        MIN_DISTANCE <= d1 <= d2,
        0 <= screen_height,
    ensures
        brightness_of(d2) <= brightness_of(d1),
        slice_height_of(d2, screen_height) <= slice_height_of(d1, screen_height),
{
    assert(0 <= screen_height * SCALE) by (nonlinear_arith)
        requires
            0 <= screen_height,
    ;
    lemma_rounded_div_antitone(screen_height * SCALE, d1, d2);
    assert(0 < d1 * d1 <= d2 * d2) by (nonlinear_arith)
        requires
            MIN_DISTANCE <= d1 <= d2,
    ;
    lemma_rounded_div_antitone(4 * 255 * SCALE * SCALE, d1 * d1, d2 * d2);
}

/// A vertical wall slice: its first and last row and its grey level.
#[derive(Clone, Copy, PartialEq, Eq, Structural, Debug)]
pub struct Column {
    pub top: i64,
    pub bottom: i64,
    pub shade: u8,
}

/// The distance corrected for the viewing angle, and raised to `MIN_DISTANCE`.
pub open spec fn corrected_of(raw: int, cos_offset: int) -> int {
    let c = raw * cos_offset / SCALE as int;
    if c < MIN_DISTANCE {
        MIN_DISTANCE as int
    } else {
        c
    }
}

/// The slice for a distance, centred on the screen's middle row.
pub open spec fn column_of(distance: int, screen_height: int) -> Column {
    let h = slice_height_of(distance, screen_height);
    Column {
        top: (screen_height / 2 - h / 2) as i64,
        bottom: (screen_height / 2 + h / 2) as i64,
        shade: brightness_of(distance) as u8,
    }
}

/// Multiplies a raw distance by the scaled cosine of the ray's offset from the view
/// direction, which flattens the fisheye curve, and raises the result to `MIN_DISTANCE`.
pub fn corrected_distance(raw: i64, cos_offset: i64) -> (r: i64)
    requires
        0 <= raw <= DOF * SCALE,
        unit_bounded(cos_offset as int),
    ensures
        r == corrected_of(raw as int, cos_offset as int),
        MIN_DISTANCE <= r <= DOF * SCALE,
{
    proof {
        assert(-(DOF * SCALE) * SCALE <= raw * cos_offset <= (DOF * SCALE) * SCALE) by (nonlinear_arith)
            requires
                0 <= raw <= DOF * SCALE,
                unit_bounded(cos_offset as int),
        ;
        vstd::arithmetic::div_mod::lemma_div_is_ordered(raw * cos_offset, (DOF * SCALE) * SCALE, SCALE as int);
    }
    let c: i64 = floor_div_mod(raw * cos_offset, SCALE).0;
    if c < MIN_DISTANCE {
        MIN_DISTANCE
    } else {
        c
    }
}

/// The slice for a distance in fixed-point units.
pub fn column_for_distance(distance: i64, screen_height: i64) -> (c: Column)
    requires
        MIN_DISTANCE <= distance,
        0 <= screen_height <= MAX_SCREEN,
    ensures
        c == column_of(distance as int, screen_height as int),
{
    let h: i64 = slice_height(distance, screen_height);
    let shade: u8 = brightness(distance);
    Column { top: screen_height / 2 - h / 2, bottom: screen_height / 2 + h / 2, shade }
}

/// The angle of the ray for screen column `i` of `width`: the sweep starts half the
/// field of view left of the facing angle and turns right by `FOV / width` per column.
pub open spec fn column_angle(p: Player, i: int, width: int) -> int {
    normal_angle(normal_angle(p.angle as int) + FOV / 2 - FOV * i / width)
}

/// What screen column `i` of `width` shows.
pub open spec fn column_view(
    grid: Grid,
    table: TrigTable,
    p: Player,
    i: int,
    width: int,
    screen_height: int,
) -> Column {
    let a = column_angle(p, i, width);
    let raw = view_distance(grid, table, Vec2 { x: p.x, y: p.y }, a);
    let offset = a - normal_angle(p.angle as int);
    column_of(corrected_of(raw, table.dir_x(offset)), screen_height)
}

/// Casts one ray per screen column and projects each distance to a wall slice.
pub fn render_columns(
    grid: &Grid,
    table: &TrigTable,
    player: &Player,
    width: i64,
    screen_height: i64,
) -> (cols: Vec<Column>)
    requires
        grid.wf(),
        table.wf(),
        0 < width <= MAX_SCREEN,
        0 <= screen_height <= MAX_SCREEN,
    ensures
        cols@.len() == width,
        forall|i: int|
            0 <= i < width ==> cols@[i] == column_view(*grid, *table, *player, i, width as int, screen_height as int),
{
    let facing: i64 = angle_to_normal_range(player.angle);
    let start: i64 = facing + FOV / 2;
    let mut cols: Vec<Column> = Vec::new();
    let mut i: i64 = 0;
    while i < width
        invariant
            grid.wf(),
            table.wf(),
            0 < width <= MAX_SCREEN,
            0 <= screen_height <= MAX_SCREEN,
            0 <= i <= width,
            facing == normal_angle(player.angle as int),
            start == facing + FOV / 2,
            cols@.len() == i,
            forall|j: int|
                0 <= j < i ==> cols@[j] == column_view(*grid, *table, *player, j, width as int, screen_height as int),
        decreases width - i,
    {
        proof {
            assert(0 <= FOV * i <= FOV * MAX_SCREEN) by (nonlinear_arith)
                requires
                    0 <= i <= MAX_SCREEN,
            ;
            vstd::arithmetic::div_mod::lemma_div_is_ordered(FOV * i, FOV * width, width as int);
            vstd::arithmetic::div_mod::lemma_div_by_multiple(FOV as int, width as int);
            assert(FOV * width == width * FOV) by (nonlinear_arith);
        }
        let ray = RayCaster { x: player.x, y: player.y, angle: angle_to_normal_range(start - FOV * i / width) };
        let raw: i64 = ray.cast(grid, table);
        let cos_offset: i64 = table.cos_at(ray.angle - facing);
        let d: i64 = corrected_distance(raw, cos_offset);
        let c: Column = column_for_distance(d, screen_height);
        cols.push(c);
        proof {
            assert(cols@[i as int] == column_view(*grid, *table, *player, i as int, width as int, screen_height as int));
        }
        i = i + 1;
    }
    cols
}

} // verus!
