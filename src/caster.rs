//! The ray caster: an exact grid traversal (DDA) from an origin along a direction.
//!
//! A ray starts at `origin` and moves along `(dx, dy) / SCALE`, so with a direction
//! of length `SCALE` the ray parameter is the travelled distance. Crossings of vertical
//! grid lines ("x crossings") and of horizontal ones ("y crossings") are taken in order
//! of their ray parameter, ties going to the y crossing. Each crossing enters a new
//! tile; the first tile that is a wall ends the ray.
use vstd::prelude::*;

use crate::angle::{angle_to_normal_range, floor_div_mod, normal_angle};
use crate::frame::Player;
use crate::grid::{Grid, Vec2};
use crate::{DOF, MAX_DOF, SCALE, TURN};

verus! {

pub open spec fn abs(d: int) -> int {
    if d < 0 {
        -d
    } else {
        d
    }
}

/// The direction in which a ray with direction component `d` moves along an axis:
/// `-1` for a negative component and `+1` otherwise, a zero component included.
pub open spec fn step_sign(d: int) -> int {
    if d < 0 {
        -1
    } else {
        1
    }
}

/// The tile coordinate that contains fixed-point coordinate `o`.
pub open spec fn tile_of(o: int) -> int {
    o / SCALE as int
}

/// Fixed-point distance along one axis from `o` to the first grid line that a ray
/// with direction component `d` crosses. Moving backwards from a grid line, that line
/// itself is crossed at once.
pub open spec fn first_gap(o: int, d: int) -> int {
    if d < 0 {
        o % SCALE as int
    } else {
        SCALE - o % SCALE as int
    }
}

/// Fixed-point distance along one axis from `o` to its `n`-th grid-line crossing
/// (counted from zero).
pub open spec fn gap(o: int, d: int, n: int) -> int {
    first_gap(o, d) + n * SCALE
}

/// Whether, having made `nx` x crossings and `ny` y crossings, the ray's next crossing
/// is an x crossing: its ray parameter `gap_x / |dx|` is strictly smaller than
/// `gap_y / |dy|`. A zero component never wins, as its crossings never come.
pub open spec fn x_first(o: Vec2, dx: int, dy: int, nx: int, ny: int) -> bool {
    gap(o.x as int, dx, nx) * abs(dy) < gap(o.y as int, dy, ny) * abs(dx)
}

/// An upper bound on the number of crossings before a ray with depth of field `dof`
/// ends.
pub open spec fn ceiling(dof: int) -> nat {
    (2 * dof + 3) as nat
}

/// The distance a ray reports, after `nx` x crossings and `ny` y crossings, with at
/// most `fuel` further crossings. A crossing beyond `dof` cells reports `dof` cells; a
/// crossing into a wall tile reports its ray parameter, rounded down.
pub open spec fn walk(
    grid: Grid,
    o: Vec2,
    dx: int,
    dy: int,
    dof: int,
    nx: nat,
    ny: nat,
    fuel: nat,
) -> int
    decreases fuel,
{
    if fuel == 0 {
        dof * SCALE
    } else {
        let gx = gap(o.x as int, dx, nx as int);
        let gy = gap(o.y as int, dy, ny as int);
        if x_first(o, dx, dy, nx as int, ny as int) {
            if gx > dof * abs(dx) {
                dof * SCALE
            } else if grid.wall_tile(
                tile_of(o.x as int) + step_sign(dx) * (nx + 1),
                tile_of(o.y as int) + step_sign(dy) * ny,
            ) {
                gx * SCALE / abs(dx)
            } else {
                walk(grid, o, dx, dy, dof, nx + 1, ny, (fuel - 1) as nat)
            }
        } else {
            if gy > dof * abs(dy) {
                dof * SCALE
            } else if grid.wall_tile(
                tile_of(o.x as int) + step_sign(dx) * nx,
                tile_of(o.y as int) + step_sign(dy) * (ny + 1),
            ) {
                gy * SCALE / abs(dy)
            } else {
                walk(grid, o, dx, dy, dof, nx, ny + 1, (fuel - 1) as nat)
            }
        }
    }
}

/// The distance, in fixed-point units, from `o` along `(dx, dy)` to the first wall tile
/// entered, or `dof` cells when none is entered within that distance.
pub open spec fn cast_distance(grid: Grid, o: Vec2, dx: int, dy: int, dof: int) -> int {
    walk(grid, o, dx, dy, dof, 0, 0, ceiling(dof))
}

/// Whether a direction component lies within `[-SCALE, SCALE]`, as a scaled cosine or sine does.
pub open spec fn unit_bounded(d: int) -> bool {
    -SCALE <= d <= SCALE
}

/// Casts a ray from `origin` along `(dir_x, dir_y)` and returns the distance to the
/// first wall tile it enters, capped at `dof` cells, in fixed-point units.
pub fn cast_ray(grid: &Grid, origin: Vec2, dir_x: i64, dir_y: i64, dof: i64) -> (r: i64)
    requires
        grid.wf(),
        unit_bounded(dir_x as int),
        unit_bounded(dir_y as int),
        0 <= dof <= MAX_DOF,
    ensures
        r == cast_distance(*grid, origin, dir_x as int, dir_y as int, dof as int),
        0 <= r <= dof * SCALE,
{
    let adx: i64 = if dir_x < 0 { -dir_x } else { dir_x };
    let ady: i64 = if dir_y < 0 { -dir_y } else { dir_y };
    let sx: i64 = if dir_x < 0 { -1 } else { 1 };
    let sy: i64 = if dir_y < 0 { -1 } else { 1 };
    let (tile_x0, frac_x) = floor_div_mod(origin.x, SCALE);
    let (tile_y0, frac_y) = floor_div_mod(origin.y, SCALE);
    let mut gx: i64 = if dir_x < 0 { frac_x } else { SCALE - frac_x };
    let mut gy: i64 = if dir_y < 0 { frac_y } else { SCALE - frac_y };
    let mut tx: i64 = tile_x0;
    let mut ty: i64 = tile_y0;
    let mut nx: i64 = 0;
    let mut ny: i64 = 0;
    proof {
        vstd::arithmetic::div_mod::lemma_div_is_ordered(origin.x as int, i64::MAX as int, SCALE as int);
        vstd::arithmetic::div_mod::lemma_div_is_ordered(i64::MIN as int, origin.x as int, SCALE as int);
        vstd::arithmetic::div_mod::lemma_div_is_ordered(origin.y as int, i64::MAX as int, SCALE as int);
        vstd::arithmetic::div_mod::lemma_div_is_ordered(i64::MIN as int, origin.y as int, SCALE as int);
    }
    loop
        invariant
            grid.wf(),
            unit_bounded(dir_x as int),
            unit_bounded(dir_y as int),
            0 <= dof <= MAX_DOF,
            adx == abs(dir_x as int),
            ady == abs(dir_y as int),
            sx == step_sign(dir_x as int),
            sy == step_sign(dir_y as int),
            0 <= nx <= dof + 1,
            0 <= ny <= dof + 1,
            gx == gap(origin.x as int, dir_x as int, nx as int),
            gy == gap(origin.y as int, dir_y as int, ny as int),
            tx == tile_of(origin.x as int) + sx * nx,
            ty == tile_of(origin.y as int) + sy * ny,
            -281474976710656 <= tile_of(origin.x as int) <= 281474976710656,
            -281474976710656 <= tile_of(origin.y as int) <= 281474976710656,
            cast_distance(*grid, origin, dir_x as int, dir_y as int, dof as int) == walk(
                *grid,
                origin,
                dir_x as int,
                dir_y as int,
                dof as int,
                nx as nat,
                ny as nat,
                (ceiling(dof as int) - nx - ny) as nat,
            ),
        decreases ceiling(dof as int) - nx - ny,
    {
        proof {
            lemma_gap_bounds(origin.x as int, dir_x as int, nx as int);
            lemma_gap_bounds(origin.y as int, dir_y as int, ny as int);
            lemma_products_fit(gx as int, ady as int, dof as int);
            lemma_products_fit(gy as int, adx as int, dof as int);
        }
        if gx * ady < gy * adx {
            if gx > dof * adx {
                return dof * SCALE;
            }
            proof {
                lemma_winner_moves(gx as int, ady as int, gy as int, adx as int);
                lemma_crossing_within(gx as int, adx as int, dof as int, nx as int);
            }
            if grid.is_wall_tile(tx + sx, ty) {
                return gx * SCALE / adx;
            }
            tx = tx + sx;
            nx = nx + 1;
            gx = gx + SCALE;
        } else {
            if gy > dof * ady {
                return dof * SCALE;
            }
            proof {
                if dir_y >= 0 {
                    lemma_gap_positive_when_forward(origin.y as int, dir_y as int, ny as int);
                    lemma_reached_moves(gy as int, ady as int, dof as int);
                }
                lemma_crossing_within(gy as int, ady as int, dof as int, ny as int);
            }
            if grid.is_wall_tile(tx, ty + sy) {
                return gy * SCALE / ady;
            }
            ty = ty + sy;
            ny = ny + 1;
            gy = gy + SCALE;
        }
    }
}

proof fn lemma_gap_bounds(o: int, d: int, n: int)
    requires
        n >= 0,
    ensures
        n * SCALE <= gap(o, d, n) <= (n + 1) * SCALE,
{
}

proof fn lemma_gap_positive_when_forward(o: int, d: int, n: int)
    requires
        n >= 0,
        d >= 0,
    ensures
        gap(o, d, n) > 0,
{
}

proof fn lemma_products_fit(g: int, a: int, dof: int)
    requires
        0 <= g <= (dof + 2) * SCALE,
        0 <= a <= SCALE,
        0 <= dof <= MAX_DOF,
    ensures
        0 <= g * a <= (MAX_DOF + 2) * SCALE * SCALE,
        0 <= dof * a <= MAX_DOF * SCALE,
        0 <= g * SCALE <= (MAX_DOF + 2) * SCALE * SCALE,
{
    assert(0 <= g * a <= (MAX_DOF + 2) * SCALE * SCALE) by (nonlinear_arith)
        requires
            0 <= g <= (dof + 2) * SCALE,
            0 <= a <= SCALE,
            0 <= dof <= MAX_DOF,
    ;
    assert(0 <= dof * a <= MAX_DOF * SCALE) by (nonlinear_arith)
        requires
            0 <= a <= SCALE,
            0 <= dof <= MAX_DOF,
    ;
}

/// The axis that wins the comparison of crossings has a positive component.
proof fn lemma_winner_moves(g: int, b: int, h: int, a: int)
    requires
        g * b < h * a,
        0 <= g,
        0 <= b,
        0 <= a,
    ensures
        a > 0,
{
    assert(g * b >= 0) by (nonlinear_arith)
        requires
            0 <= g,
            0 <= b,
    ;
}

/// A positive gap within the depth of field comes from a positive component.
proof fn lemma_reached_moves(g: int, a: int, dof: int)
    requires
        0 < g <= dof * a,
        0 <= a,
    ensures
        a > 0,
{
    if a == 0 {
        assert(dof * a == 0) by (nonlinear_arith)
            requires
                a == 0,
        ;
    }
}

/// A crossing that lies within the depth of field leaves room for one more crossing on
/// its axis, and reports at most `dof` cells.
proof fn lemma_crossing_within(g: int, a: int, dof: int, n: int)
    requires
        0 <= n,
        n * SCALE <= g,
        0 < a <= SCALE,
        0 <= dof,
        g <= dof * a,
    ensures
        n + 1 <= dof + 1,
        0 <= g * SCALE / a <= dof * SCALE,
{
    assert(dof * a <= dof * SCALE) by (nonlinear_arith)
        requires
            0 <= a <= SCALE,
            0 <= dof,
    ;
    assert(g * SCALE <= (dof * SCALE) * a) by (nonlinear_arith)
        requires
            g <= dof * a,
            0 <= g,
            a > 0,
            0 <= dof,
    ;
    vstd::arithmetic::div_mod::lemma_div_is_ordered(g * SCALE, (dof * SCALE) * a, a);
    vstd::arithmetic::div_mod::lemma_div_by_multiple(dof * SCALE, a);
    vstd::arithmetic::div_mod::lemma_div_pos_is_pos(g * SCALE, a);
}

/// Cosines and sines of every angle unit, scaled by `SCALE`.
pub struct TrigTable {
    pub cos: Vec<i64>,
    pub sin: Vec<i64>,
}

impl TrigTable {
    pub open spec fn wf(&self) -> bool {
        Self::valid_parts(self.cos@, self.sin@)
    }

    /// One entry per angle unit, each within `[-SCALE, SCALE]`.
    pub open spec fn valid_parts(cos: Seq<i64>, sin: Seq<i64>) -> bool {
        &&& cos.len() == TURN
        &&& sin.len() == TURN
        &&& forall|i: int| 0 <= i < TURN ==> unit_bounded(#[trigger] cos[i] as int)
        &&& forall|i: int| 0 <= i < TURN ==> unit_bounded(#[trigger] sin[i] as int)
    }

    /// The x component of the direction of angle `a`: its cosine.
    pub open spec fn dir_x(&self, a: int) -> int {
        self.cos@[normal_angle(a)] as int
    }

    /// The y component of the direction of angle `a`. Grid rows grow downwards while
    /// angles turn counter-clockwise, so this is the negated sine.
    pub open spec fn dir_y(&self, a: int) -> int {
        -(self.sin@[normal_angle(a)] as int)
    }

    /// A table from its columns, or `None` when they do not have one entry per angle
    /// unit within `[-SCALE, SCALE]`.
    pub fn from_parts(cos: Vec<i64>, sin: Vec<i64>) -> (r: Option<TrigTable>)
        ensures
            r.is_some() == Self::valid_parts(cos@, sin@),
            r matches Some(t) ==> t.cos@ == cos@ && t.sin@ == sin@,
    {
        if cos.len() != TURN as usize || sin.len() != TURN as usize {
            return None;
        }
        let mut i: usize = 0;
        while i < cos.len()
            invariant
                cos@.len() == TURN,
                sin@.len() == TURN,
                i <= TURN,
                forall|j: int| 0 <= j < i ==> unit_bounded(#[trigger] cos@[j] as int),
                forall|j: int| 0 <= j < i ==> unit_bounded(#[trigger] sin@[j] as int),
            decreases TURN - i,
        {
            if cos[i] < -SCALE || cos[i] > SCALE || sin[i] < -SCALE || sin[i] > SCALE {
                assert(!unit_bounded(cos@[i as int] as int) || !unit_bounded(sin@[i as int] as int));
                return None;
            }
            i = i + 1;
        }
        Some(TrigTable { cos, sin })
    }

    /// The scaled cosine of angle `a`, taken modulo a turn.
    pub fn cos_at(&self, a: i64) -> (r: i64)
        requires
            self.wf(),
        ensures
            r == self.dir_x(a as int),
            unit_bounded(r as int),
    {
        let n: i64 = angle_to_normal_range(a);
        self.cos[n as usize]
    }

    /// The scaled sine of angle `a`, taken modulo a turn.
    pub fn sin_at(&self, a: i64) -> (r: i64)
        requires
            self.wf(),
        ensures
            r == -self.dir_y(a as int),
            unit_bounded(r as int),
    {
        let n: i64 = angle_to_normal_range(a);
        self.sin[n as usize]
    }
}

/// The directions of travel along x and y for a normalized angle: x runs backwards
/// for angles strictly between a quarter and three quarters of a turn, y runs towards
/// smaller rows for angles strictly between zero and half a turn. The bounds
/// themselves fall to the forward direction.
pub open spec fn quadrant_signs_of(a: int) -> (int, int) {
    (
        if TURN / 4 < a < 3 * TURN / 4 { -1 } else { 1 },
        if 0 < a < TURN / 2 { -1 } else { 1 },
    )
}

/// The directions of travel along x and y for a normalized angle, each `-1` or `1`.
pub fn quadrant_signs(angle: i64) -> (r: (i64, i64))
    requires
        0 <= angle < TURN,
    ensures
        (r.0 as int, r.1 as int) == quadrant_signs_of(angle as int),
{
    let sx: i64 = if angle > TURN / 4 && angle < 3 * TURN / 4 { -1 } else { 1 };
    let sy: i64 = if angle > 0 && angle < TURN / 2 { -1 } else { 1 };
    (sx, sy)
}

/// The direction of a ray at angle `a`: the table's cosine and sine in size, with the
/// signs of the angle's quadrant.
pub open spec fn ray_direction(table: TrigTable, a: int) -> (int, int) {
    let n = normal_angle(a);
    let signs = quadrant_signs_of(n);
    let mx = abs(table.cos@[n] as int);
    let my = abs(table.sin@[n] as int);
    (if signs.0 < 0 { -mx } else { mx }, if signs.1 < 0 { -my } else { my })
}

/// The distance that a viewer at `o` facing angle `a` sees, with the renderer's depth
/// of field.
pub open spec fn view_distance(grid: Grid, table: TrigTable, o: Vec2, a: int) -> int {
    let d = ray_direction(table, a);
    cast_distance(grid, o, d.0, d.1, DOF as int)
}

/// A ray to cast: an origin in fixed-point units and an angle in angle units.
pub struct RayCaster {
    pub x: i64,
    pub y: i64,
    pub angle: i64,
}

impl RayCaster {
    /// A ray from the player's position along the player's facing angle.
    pub fn from_player(player: &Player) -> (r: RayCaster)
        ensures
            r.x == player.x,
            r.y == player.y,
            r.angle == player.angle,
    {
        RayCaster { x: player.x, y: player.y, angle: player.angle }
    }

    pub open spec fn origin(&self) -> Vec2 {
        Vec2 { x: self.x, y: self.y }
    }

    /// The distance, in fixed-point units, to the first wall tile along the ray, or
    /// `DOF` cells when there is none within that distance.
    pub fn cast(&self, grid: &Grid, table: &TrigTable) -> (r: i64)
        requires
            grid.wf(),
            table.wf(),
        ensures
            r == view_distance(*grid, *table, self.origin(), self.angle as int),
            0 <= r <= DOF * SCALE,
    {
        let a: i64 = angle_to_normal_range(self.angle);
        let (sx, sy) = quadrant_signs(a);
        let cos: i64 = table.cos_at(a);
        let sin: i64 = table.sin_at(a);
        let mx: i64 = if cos < 0 { -cos } else { cos };
        let my: i64 = if sin < 0 { -sin } else { sin };
        let dir_x: i64 = if sx < 0 { -mx } else { mx };
        let dir_y: i64 = if sy < 0 { -my } else { my };
        proof {
            vstd::arithmetic::div_mod::lemma_mod_self_0(TURN as int);
            vstd::arithmetic::div_mod::lemma_small_mod(a as nat, TURN as nat);
        }
        cast_ray(grid, Vec2 { x: self.x, y: self.y }, dir_x, dir_y, DOF)
    }
}

} // verus!
