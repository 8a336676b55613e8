//! Facts about cast rays: they end, depend on the angle only modulo a turn, and report
//! more when they may travel further.
use vstd::prelude::*;

use crate::angle::lemma_normal_angle_turns;
use crate::caster::{
    abs, cast_distance, ceiling, gap, step_sign, tile_of, unit_bounded, view_distance, walk,
    x_first, TrigTable,
};
use crate::grid::{Grid, Vec2, Wall};
use crate::{SCALE, TURN};

verus! {

/// Turning the viewer by whole turns does not change what it sees.
pub proof fn lemma_view_distance_turn_invariant(grid: Grid, table: TrigTable, o: Vec2, a: int)
    ensures
        view_distance(grid, table, o, a) == view_distance(grid, table, o, a + TURN),
{
    lemma_normal_angle_turns(a, 1);
}

/// A crossing count within the depth of field is at most `dof`.
proof fn lemma_count_within(g: int, a: int, dof: int, n: int)
    requires
        n * SCALE <= g <= dof * a,
        0 <= a <= SCALE,
        0 <= dof,
    ensures
        n <= dof,
{
    assert(dof * a <= dof * SCALE) by (nonlinear_arith)
        requires
            0 <= a <= SCALE,
            0 <= dof,
    ;
}

proof fn lemma_fuel_irrelevant(
    grid: Grid,
    o: Vec2,
    dx: int,
    dy: int,
    dof: int,
    nx: nat,
    ny: nat,
    f1: nat,
    f2: nat,
)
    requires
        unit_bounded(dx),
        unit_bounded(dy),
        0 <= dof,
        nx <= dof + 1,
        ny <= dof + 1,
        f1 >= ceiling(dof) - nx - ny,
        f2 >= ceiling(dof) - nx - ny,
    ensures
        walk(grid, o, dx, dy, dof, nx, ny, f1) == walk(grid, o, dx, dy, dof, nx, ny, f2),
    decreases f1,
{
    let gx = gap(o.x as int, dx, nx as int);
    let gy = gap(o.y as int, dy, ny as int);
    if x_first(o, dx, dy, nx as int, ny as int) {
        if gx <= dof * abs(dx) {
            lemma_count_within(gx, abs(dx), dof, nx as int);
            lemma_fuel_irrelevant(grid, o, dx, dy, dof, nx + 1, ny, (f1 - 1) as nat, (f2 - 1) as nat);
        }
    } else {
        if gy <= dof * abs(dy) {
            lemma_count_within(gy, abs(dy), dof, ny as int);
            lemma_fuel_irrelevant(grid, o, dx, dy, dof, nx, ny + 1, (f1 - 1) as nat, (f2 - 1) as nat);
        }
    }
}

/// Every ray ends within `ceiling(dof)` crossings: allowing it any number of crossings
/// beyond that gives the same distance.
pub proof fn lemma_walk_ends_within_ceiling(
    grid: Grid,
    o: Vec2,
    dx: int,
    dy: int,
    dof: int,
    fuel: nat,
)
    requires
        unit_bounded(dx),
        unit_bounded(dy),
        0 <= dof,
        fuel >= ceiling(dof),
    ensures
        walk(grid, o, dx, dy, dof, 0, 0, fuel) == cast_distance(grid, o, dx, dy, dof),
{
    lemma_fuel_irrelevant(grid, o, dx, dy, dof, 0, 0, fuel, ceiling(dof));
}

/// Whether the next crossing lies beyond `dof` cells.
spec fn next_beyond(o: Vec2, dx: int, dy: int, nx: int, ny: int, dof: int) -> bool {
    if x_first(o, dx, dy, nx, ny) {
        gap(o.x as int, dx, nx) > dof * abs(dx)
    } else {
        gap(o.y as int, dy, ny) > dof * abs(dy)
    }
}

/// `x / b <= y / e` whenever `x / b <= y / e` as rationals.
pub proof fn lemma_floor_ordered(x: int, b: int, y: int, e: int)
    requires
        0 <= x,
        0 <= y,
        0 < b,
        0 < e,
        x * e <= y * b,
    ensures
        x / b <= y / e,
{
    let q = x / b;
    vstd::arithmetic::div_mod::lemma_fundamental_div_mod(x, b);
    vstd::arithmetic::div_mod::lemma_div_pos_is_pos(x, b);
    assert(q * e <= y) by (nonlinear_arith)
        requires
            q * b <= x,
            x * e <= y * b,
            0 < b,
            0 < e,
            0 <= q,
    ;
    vstd::arithmetic::div_mod::lemma_div_is_ordered(q * e, y, e);
    vstd::arithmetic::div_mod::lemma_div_by_multiple(q, e);
}

/// A crossing beyond `lo` cells reports at least `lo` cells.
proof fn lemma_report_beyond(g: int, a: int, lo: int)
    requires
        g > lo * a,
        0 < a,
        0 <= lo,
    ensures
        g * SCALE / a >= lo * SCALE,
{
    assert((lo * SCALE) * a <= (g * SCALE) * 1) by (nonlinear_arith)
        requires
            g > lo * a,
            0 < a,
    ;
    assert(lo * SCALE >= 0 && g * SCALE >= 0) by (nonlinear_arith)
        requires
            g > lo * a,
            0 < a,
            0 <= lo,
    ;
    lemma_floor_ordered(lo * SCALE, 1, g * SCALE, a);
}

/// Once the next crossing lies beyond `lo` cells, every later one does too, so the ray
/// reports at least `lo` cells under any depth of field from `lo` on.
proof fn lemma_beyond_reports_at_least(
    grid: Grid,
    o: Vec2,
    dx: int,
    dy: int,
    lo: int,
    dof: int,
    nx: nat,
    ny: nat,
    fuel: nat,
)
    requires
        unit_bounded(dx),
        unit_bounded(dy),
        0 <= lo <= dof,
        next_beyond(o, dx, dy, nx as int, ny as int, lo),
    ensures
        walk(grid, o, dx, dy, dof, nx, ny, fuel) >= lo * SCALE,
    decreases fuel,
{
    if fuel == 0 {
        return;
    }
    let gx = gap(o.x as int, dx, nx as int);
    let gy = gap(o.y as int, dy, ny as int);
    let adx = abs(dx);
    let ady = abs(dy);
    assert(gx >= 0 && gy >= 0);
    if x_first(o, dx, dy, nx as int, ny as int) {
        assert(adx > 0) by (nonlinear_arith)
            requires
                gx * ady < gy * adx,
                gx >= 0,
                ady >= 0,
                adx >= 0,
        ;
        if gx <= dof * adx {
            lemma_report_beyond(gx, adx, lo);
            // the next crossing stays beyond `lo`
            if !x_first(o, dx, dy, nx + 1 as int, ny as int) {
                if ady > 0 {
                    assert(gy > lo * ady) by (nonlinear_arith)
                        requires
                            gx * ady < gy * adx,
                            gx > lo * adx,
                            adx > 0,
                            ady > 0,
                    ;
                } else {
                    assert(gy * adx > 0) by (nonlinear_arith)
                        requires
                            gx * ady < gy * adx,
                            ady == 0,
                    ;
                    assert(lo * ady == 0) by (nonlinear_arith)
                        requires
                            ady == 0,
                    ;
                    assert(gy > 0) by (nonlinear_arith)
                        requires
                            gy * adx > 0,
                            adx > 0,
                    ;
                }
            }
            lemma_beyond_reports_at_least(grid, o, dx, dy, lo, dof, nx + 1, ny, (fuel - 1) as nat);
        } else {
            assert(lo * SCALE <= dof * SCALE);
        }
    } else {
        if gy <= dof * ady {
            if ady == 0 {
                assert(dof * ady == 0 && lo * ady == 0) by (nonlinear_arith)
                    requires
                        ady == 0,
                ;
            }
            assert(ady > 0);
            lemma_report_beyond(gy, ady, lo);
            if x_first(o, dx, dy, nx as int, ny + 1 as int) {
                let gy2 = gap(o.y as int, dy, ny + 1 as int);
                assert(adx > 0) by (nonlinear_arith)
                    requires
                        gx * ady < gy2 * adx,
                        gx >= 0,
                        ady >= 0,
                        adx >= 0,
                ;
                assert(gx > lo * adx) by (nonlinear_arith)
                    requires
                        gy * adx <= gx * ady,
                        gy > lo * ady,
                        adx > 0,
                        ady > 0,
                ;
            }
            lemma_beyond_reports_at_least(grid, o, dx, dy, lo, dof, nx, ny + 1, (fuel - 1) as nat);
        } else {
            assert(lo * SCALE <= dof * SCALE);
        }
    }
}

proof fn lemma_walk_dof_monotone(
    grid: Grid,
    o: Vec2,
    dx: int,
    dy: int,
    dof1: int,
    dof2: int,
    nx: nat,
    ny: nat,
    f1: nat,
    f2: nat,
)
    requires
        unit_bounded(dx),
        unit_bounded(dy),
        0 <= dof1 <= dof2,
        nx <= dof1 + 1,
        ny <= dof1 + 1,
        f1 >= ceiling(dof1) - nx - ny,
        f2 >= f1,
    ensures
        walk(grid, o, dx, dy, dof1, nx, ny, f1) <= walk(grid, o, dx, dy, dof2, nx, ny, f2),
    decreases f1,
{
    let gx = gap(o.x as int, dx, nx as int);
    let gy = gap(o.y as int, dy, ny as int);
    let adx = abs(dx);
    let ady = abs(dy);
    assert(dof1 * adx <= dof2 * adx && dof1 * ady <= dof2 * ady) by (nonlinear_arith)
        requires
            0 <= dof1 <= dof2,
            adx >= 0,
            ady >= 0,
    ;
    if x_first(o, dx, dy, nx as int, ny as int) {
        if gx > dof1 * adx {
            lemma_beyond_reports_at_least(grid, o, dx, dy, dof1, dof2, nx, ny, f2);
        } else {
            lemma_count_within(gx, adx, dof1, nx as int);
            lemma_walk_dof_monotone(grid, o, dx, dy, dof1, dof2, nx + 1, ny, (f1 - 1) as nat, (f2 - 1) as nat);
        }
    } else {
        if gy > dof1 * ady {
            lemma_beyond_reports_at_least(grid, o, dx, dy, dof1, dof2, nx, ny, f2);
        } else {
            lemma_count_within(gy, ady, dof1, ny as int);
            lemma_walk_dof_monotone(grid, o, dx, dy, dof1, dof2, nx, ny + 1, (f1 - 1) as nat, (f2 - 1) as nat);
        }
    }
}

/// A larger depth of field never gives a smaller distance: a wall within the smaller
/// one is found at the same distance, and a ray that ends beyond it reports at least
/// the smaller cap.
pub proof fn lemma_cast_dof_monotone(grid: Grid, o: Vec2, dx: int, dy: int, dof1: int, dof2: int)
    requires
        unit_bounded(dx),
        unit_bounded(dy),
        0 <= dof1 <= dof2,
    ensures
        cast_distance(grid, o, dx, dy, dof1) <= cast_distance(grid, o, dx, dy, dof2),
{
    lemma_walk_dof_monotone(grid, o, dx, dy, dof1, dof2, 0, 0, ceiling(dof1), ceiling(dof2));
}

/// Whole cells from tile coordinate `c` to the border of a grid of side `size`, moving
/// backwards along an axis when `d < 0` and forwards otherwise.
pub open spec fn cells_to_border(size: int, c: int, d: int) -> int {
    if d < 0 {
        c - 1
    } else {
        size - 1 - c
    }
}

pub open spec fn min(a: int, b: int) -> int {
    if a <= b {
        a
    } else {
        b
    }
}

proof fn lemma_corner_coordinate(c: int)
    ensures
        tile_of(c * SCALE) == c,
        (c * SCALE) % SCALE as int == 0,
{
    vstd::arithmetic::div_mod::lemma_div_multiples_vanish(c, SCALE as int);
    vstd::arithmetic::div_mod::lemma_mod_multiples_basic(c, SCALE as int);
    assert(SCALE * c == c * SCALE);
}

/// Crossings along x of a ray that runs parallel to the x axis inside a bordered grid.
proof fn lemma_along_x(grid: Grid, x0: int, y0: int, dx: int, dof: int, n: nat, fuel: nat)
    requires
        grid.wf(),
        grid.is_bordered(),
        1 <= x0 <= grid.size - 2,
        1 <= y0 <= grid.size - 2,
        dx == SCALE || dx == -SCALE,
        0 <= dof,
        n + (if dx < 0 { 0int } else { 1int }) <= cells_to_border(grid.size as int, x0, dx),
        n + (if dx < 0 { 0int } else { 1int }) <= dof + 1,
        fuel >= ceiling(dof) - n,
    ensures
        walk(grid, Vec2 { x: (x0 * SCALE) as i64, y: (y0 * SCALE) as i64 }, dx, 0, dof, n, 0, fuel)
            == min(cells_to_border(grid.size as int, x0, dx), dof) * SCALE,
    decreases fuel,
{
    let o = Vec2 { x: (x0 * SCALE) as i64, y: (y0 * SCALE) as i64 };
    lemma_corner_coordinate(x0);
    lemma_corner_coordinate(y0);
    let m = n + if dx < 0 { 0int } else { 1int };
    let big_d = cells_to_border(grid.size as int, x0, dx);
    let gx = gap(o.x as int, dx, n as int);
    let gy = gap(o.y as int, 0, 0);
    assert(gx == m * SCALE);
    assert(gy == SCALE);
    assert(abs(0) == 0 && abs(dx) == SCALE);
    assert(gx * 0 == 0);
    assert(gx * abs(0) < gy * abs(dx));
    assert(x_first(o, dx, 0, n as int, 0));
    assert(ceiling(dof) - n > 0);
    if gx > dof * abs(dx) {
    } else {
        let col = x0 + step_sign(dx) * (n + 1);
        assert(0 <= col < grid.size);
        assert(grid.cell(y0, col) == Wall::Wall <==> Grid::on_border(grid.size as int, y0, col));
        assert(gx * SCALE / abs(dx) == m * SCALE) by {
            vstd::arithmetic::div_mod::lemma_div_by_multiple(m * SCALE, SCALE as int);
            assert(gx * SCALE == (m * SCALE) * SCALE);
        }
        if m < big_d {
            lemma_along_x(grid, x0, y0, dx, dof, n + 1, (fuel - 1) as nat);
        }
    }
}

/// Crossings along y of a ray that runs parallel to the y axis inside a bordered grid.
proof fn lemma_along_y(grid: Grid, x0: int, y0: int, dy: int, dof: int, n: nat, fuel: nat)
    requires
        grid.wf(),
        grid.is_bordered(),
        1 <= x0 <= grid.size - 2,
        1 <= y0 <= grid.size - 2,
        dy == SCALE || dy == -SCALE,
        0 <= dof,
        n + (if dy < 0 { 0int } else { 1int }) <= cells_to_border(grid.size as int, y0, dy),
        n + (if dy < 0 { 0int } else { 1int }) <= dof + 1,
        fuel >= ceiling(dof) - n,
    ensures
        walk(grid, Vec2 { x: (x0 * SCALE) as i64, y: (y0 * SCALE) as i64 }, 0, dy, dof, 0, n, fuel)
            == min(cells_to_border(grid.size as int, y0, dy), dof) * SCALE,
    decreases fuel,
{
    let o = Vec2 { x: (x0 * SCALE) as i64, y: (y0 * SCALE) as i64 };
    lemma_corner_coordinate(x0);
    lemma_corner_coordinate(y0);
    let m = n + if dy < 0 { 0int } else { 1int };
    let big_d = cells_to_border(grid.size as int, y0, dy);
    let gx = gap(o.x as int, 0, 0);
    let gy = gap(o.y as int, dy, n as int);
    assert(gy == m * SCALE);
    assert(gx == SCALE);
    assert(abs(0) == 0 && abs(dy) == SCALE);
    assert(gy * 0 == 0);
    assert(gx * abs(dy) >= 0);
    assert(!(gx * abs(dy) < gy * abs(0)));
    assert(!x_first(o, 0, dy, 0, n as int));
    assert(ceiling(dof) - n > 0);
    if gy > dof * abs(dy) {
    } else {
        let row = y0 + step_sign(dy) * (n + 1);
        assert(0 <= row < grid.size);
        assert(grid.cell(row, x0) == Wall::Wall <==> Grid::on_border(grid.size as int, row, x0));
        assert(gy * SCALE / abs(dy) == m * SCALE) by {
            vstd::arithmetic::div_mod::lemma_div_by_multiple(m * SCALE, SCALE as int);
            assert(gy * SCALE == (m * SCALE) * SCALE);
        }
        if m < big_d {
            lemma_along_y(grid, x0, y0, dy, dof, n + 1, (fuel - 1) as nat);
        }
    }
}

/// On a grid whose only walls are its border, a viewer on the corner `(x0, y0)` of an
/// inner tile who looks straight along an axis sees the border at the whole number of
/// cells between them, capped at the depth of field. Directions are `(SCALE, 0)` east,
/// `(0, -SCALE)` north, `(-SCALE, 0)` west and `(0, SCALE)` south.
pub proof fn lemma_axis_aligned_bordered(grid: Grid, x0: int, y0: int, dof: int)
    requires
        grid.wf(),
        grid.is_bordered(),
        1 <= x0 <= grid.size - 2,
        1 <= y0 <= grid.size - 2,
        0 <= dof,
    ensures
        ({
            let o = Vec2 { x: (x0 * SCALE) as i64, y: (y0 * SCALE) as i64 };
            let size = grid.size as int;
            &&& cast_distance(grid, o, SCALE as int, 0, dof) == min(size - 1 - x0, dof) * SCALE
            &&& cast_distance(grid, o, 0, -SCALE, dof) == min(y0 - 1, dof) * SCALE
            &&& cast_distance(grid, o, -SCALE, 0, dof) == min(x0 - 1, dof) * SCALE
            &&& cast_distance(grid, o, 0, SCALE as int, dof) == min(size - 1 - y0, dof) * SCALE
        }),
{
    lemma_along_x(grid, x0, y0, SCALE as int, dof, 0, ceiling(dof));
    lemma_along_x(grid, x0, y0, -SCALE, dof, 0, ceiling(dof));
    lemma_along_y(grid, x0, y0, SCALE as int, dof, 0, ceiling(dof));
    lemma_along_y(grid, x0, y0, -SCALE, dof, 0, ceiling(dof));
}

} // verus!
