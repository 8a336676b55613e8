//! The occupancy grid: a square of cells, each empty or a wall.
use vstd::prelude::*;

use crate::angle::floor_div_mod;
use crate::SCALE;

verus! {

/// The largest side length of a grid, in cells.
pub const MAX_SIZE: usize = 4096;

/// The state of one cell.
#[derive(Clone, Copy, PartialEq, Eq, Structural, Debug)]
pub enum Wall {
    Empty,
    Wall,
}

/// A point in fixed-point units: `SCALE` units per cell.
#[derive(Clone, Copy, PartialEq, Eq, Structural, Debug)]
pub struct Vec2 {
    pub x: i64,
    pub y: i64,
}

impl Vec2 {
    /// The difference vector `self - other`.
    pub fn sub(self, other: Vec2) -> (r: Vec2)
        requires
            i64::MIN <= self.x - other.x <= i64::MAX,
            i64::MIN <= self.y - other.y <= i64::MAX,
        ensures
            r.x == self.x - other.x,
            r.y == self.y - other.y,
    {
        Vec2 { x: self.x - other.x, y: self.y - other.y }
    }

    /// The squared Euclidean length.
    pub open spec fn length_squared(&self) -> int {
        self.x * self.x + self.y * self.y
    }

    /// The Euclidean length, rounded down.
    pub fn get_length(&self) -> (r: u64)
        ensures
            r * r <= self.length_squared() < (r + 1) * (r + 1),
    {
        let xi: i128 = self.x as i128;
        let yi: i128 = self.y as i128;
        let ax: u128 = if xi < 0 { (-xi) as u128 } else { xi as u128 };
        let ay: u128 = if yi < 0 { (-yi) as u128 } else { yi as u128 };
        proof {
            assert(ax * ax <= 0x4000_0000_0000_0000_0000_0000_0000_0000) by (nonlinear_arith)
                requires
                    ax <= 0x8000_0000_0000_0000,
            ;
            assert(ay * ay <= 0x4000_0000_0000_0000_0000_0000_0000_0000) by (nonlinear_arith)
                requires
                    ay <= 0x8000_0000_0000_0000,
            ;
            assert(ax * ax == self.x * self.x) by (nonlinear_arith)
                requires
                    ax == self.x || ax == -self.x,
            ;
            assert(ay * ay == self.y * self.y) by (nonlinear_arith)
                requires
                    ay == self.y || ay == -self.y,
            ;
        }
        let sq: u128 = ax * ax + ay * ay;
        let mut lo: u128 = 0;
        let mut hi: u128 = 0x1_0000_0000_0000_0000;
        assert(sq < hi * hi);
        while hi - lo > 1
            invariant
                lo < hi <= 0x1_0000_0000_0000_0000,
                lo * lo <= sq,
                sq < hi * hi,
            decreases hi - lo,
        {
            let mid: u128 = lo + (hi - lo) / 2;
            proof {
                assert(mid * mid < 0x1_0000_0000_0000_0000 * 0x1_0000_0000_0000_0000) by (nonlinear_arith)
                    requires
                        mid < 0x1_0000_0000_0000_0000,
                ;
            }
            if mid * mid <= sq {
                lo = mid;
            } else {
                hi = mid;
            }
        }
        assert(lo + 1 == hi);
        lo as u64
    }

    /// The sum `self + other`.
    pub fn add(self, other: Vec2) -> (r: Vec2)
        requires
            i64::MIN <= self.x + other.x <= i64::MAX,
            i64::MIN <= self.y + other.y <= i64::MAX,
        ensures
            r.x == self.x + other.x,
            r.y == self.y + other.y,
    {
        Vec2 { x: self.x + other.x, y: self.y + other.y }
    }
}

/// A square grid of `size * size` cells, stored row by row.
pub struct Grid {
    pub size: usize,
    pub cells: Vec<Wall>,
}

impl Grid {
    pub open spec fn wf(&self) -> bool {
        &&& self.size <= MAX_SIZE
        &&& self.cells@.len() == self.size * self.size
    }

    /// The cell in row `row` and column `col`.
    pub open spec fn cell(&self, row: int, col: int) -> Wall {
        self.cells@[row * self.size + col]
    }

    /// Whether the tile in column `col` and row `row` lies in the grid and is a wall.
    pub open spec fn wall_tile(&self, col: int, row: int) -> bool {
        &&& 0 <= col < self.size
        &&& 0 <= row < self.size
        &&& self.cell(row, col) == Wall::Wall
    }

    /// Whether the cell at `(row, col)` of a grid with this side is on its border.
    pub open spec fn on_border(size: int, row: int, col: int) -> bool {
        row == 0 || col == 0 || row == size - 1 || col == size - 1
    }

    /// Whether every border cell is a wall and every other cell is empty.
    pub open spec fn is_bordered(&self) -> bool {
        forall|r: int, c: int|
            0 <= r < self.size && 0 <= c < self.size ==> (self.cell(r, c) == Wall::Wall
                <==> Self::on_border(self.size as int, r, c))
    }

    /// A grid of `size * size` empty cells.
    pub fn empty(size: usize) -> (g: Grid)
        requires
            size <= MAX_SIZE,
        ensures
            g.wf(),
            g.size == size,
            forall|r: int, c: int| 0 <= r < size && 0 <= c < size ==> g.cell(r, c) == Wall::Empty,
    {
        assert(size * size <= MAX_SIZE * MAX_SIZE) by (nonlinear_arith)
            requires
                size <= MAX_SIZE,
        ;
        let n: usize = size * size;
        let mut cells: Vec<Wall> = Vec::with_capacity(n);
        let mut i: usize = 0;
        while i < n
            invariant
                i <= n,
                n == size * size,
                cells@.len() == i,
                forall|j: int| 0 <= j < i ==> cells@[j] == Wall::Empty,
            decreases n - i,
        {
            cells.push(Wall::Empty);
            i = i + 1;
        }
        let g = Grid { size, cells };
        assert forall|r: int, c: int| 0 <= r < size && 0 <= c < size implies g.cell(r, c)
            == Wall::Empty by {
            Self::lemma_index_in_range(size as int, r, c);
        }
        g
    }

    proof fn lemma_index_in_range(size: int, r: int, c: int)
        requires
            size <= MAX_SIZE,
            0 <= r < size,
            0 <= c < size,
        ensures
            0 <= r * size + c < size * size,
            0 <= r * size <= size * size,
    {
        assert(0 <= r * size + c < size * size && 0 <= r * size <= size * size) by (nonlinear_arith)
            requires
                0 <= r < size,
                0 <= c < size,
        ;
    }

    proof fn lemma_cells_fit(size: int)
        requires
            0 <= size <= MAX_SIZE,
        ensures
            size * size <= MAX_SIZE * MAX_SIZE,
    {
        assert(size * size <= MAX_SIZE * MAX_SIZE) by (nonlinear_arith)
            requires
                0 <= size <= MAX_SIZE,
        ;
    }

    proof fn lemma_index_unique(size: int, r1: int, c1: int, r2: int, c2: int)
        requires
            0 <= r1 < size,
            0 <= c1 < size,
            0 <= r2 < size,
            0 <= c2 < size,
            r1 * size + c1 == r2 * size + c2,
        ensures
            r1 == r2 && c1 == c2,
    {
        assert(r1 == r2) by (nonlinear_arith)
            requires
                0 <= c1 < size,
                0 <= c2 < size,
                r1 * size + c1 == r2 * size + c2,
        ;
    }

    /// The cell in row `row` and column `col`.
    pub fn get(&self, row: usize, col: usize) -> (r: Wall)
        requires
            self.wf(),
            row < self.size,
            col < self.size,
        ensures
            r == self.cell(row as int, col as int),
    {
        proof {
            Self::lemma_index_in_range(self.size as int, row as int, col as int);
            Self::lemma_cells_fit(self.size as int);
        }
        self.cells[row * self.size + col]
    }

    /// Sets the cell in row `row` and column `col`, leaving every other cell as it was.
    pub fn set(&mut self, row: usize, col: usize, value: Wall)
        requires
            old(self).wf(),
            row < old(self).size,
            col < old(self).size,
        ensures
            final(self).wf(),
            final(self).size == old(self).size,
            final(self).cell(row as int, col as int) == value,
            forall|r: int, c: int|
                0 <= r < old(self).size && 0 <= c < old(self).size && (r != row || c != col)
                    ==> final(self).cell(r, c) == old(self).cell(r, c),
    {
        proof {
            Self::lemma_index_in_range(self.size as int, row as int, col as int);
            Self::lemma_cells_fit(self.size as int);
        }
        let idx: usize = row * self.size + col;
        self.cells.set(idx, value);
        proof {
            assert forall|r: int, c: int|
                0 <= r < self.size && 0 <= c < self.size && (r != row || c != col)
                    implies self.cell(r, c) == old(self).cell(r, c) by {
                Self::lemma_index_in_range(self.size as int, r, c);
                if r * self.size + c == idx {
                    Self::lemma_index_unique(self.size as int, r, c, row as int, col as int);
                }
            }
        }
    }

    /// A grid whose border cells are walls and whose other cells are empty.
    pub fn bordered(size: usize) -> (g: Grid)
        requires
            size <= MAX_SIZE,
        ensures
            g.wf(),
            g.size == size,
            g.is_bordered(),
    {
        let mut g = Grid::empty(size);
        let mut i: usize = 0;
        while i < size
            invariant
                g.wf(),
                g.size == size,
                i <= size,
                forall|r: int, c: int|
                    0 <= r < size && 0 <= c < size ==> (g.cell(r, c) == Wall::Wall <==> (r < i
                        && Self::on_border(size as int, r, c))),
            decreases size - i,
        {
            let mut j: usize = 0;
            while j < size
                invariant
                    g.wf(),
                    g.size == size,
                    i < size,
                    j <= size,
                    forall|r: int, c: int|
                        0 <= r < size && 0 <= c < size ==> (g.cell(r, c) == Wall::Wall <==> ((r
                            < i || (r == i && c < j)) && Self::on_border(size as int, r, c))),
                decreases size - j,
            {
                if i == 0 || j == 0 || i == size - 1 || j == size - 1 {
                    g.set(i, j, Wall::Wall);
                }
                j = j + 1;
            }
            i = i + 1;
        }
        g
    }

    /// Whether the tile in column `col` and row `row` lies in the grid and is a wall.
    pub fn is_wall_tile(&self, col: i64, row: i64) -> (r: bool)
        requires
            self.wf(),
        ensures
            r == self.wall_tile(col as int, row as int),
    {
        if col < 0 || row < 0 || col >= self.size as i64 || row >= self.size as i64 {
            false
        } else {
            self.get(row as usize, col as usize) == Wall::Wall
        }
    }

    /// Whether `position` lies strictly inside the grid's extent on both axes and the
    /// cell containing it is a wall.
    pub open spec fn occupied(&self, position: Vec2) -> bool {
        &&& 0 < position.x < self.size * SCALE
        &&& 0 < position.y < self.size * SCALE
        &&& self.cell(position.y as int / SCALE as int, position.x as int / SCALE as int) == Wall::Wall
    }

    /// Whether the point `position` lies in a wall cell; points outside the grid are not.
    pub fn is_wall_at_position(&self, position: Vec2) -> (r: bool)
        requires
            self.wf(),
        ensures
            r == self.occupied(position),
    {
        let extent: i64 = self.size as i64 * SCALE;
        if !(position.x > 0 && position.x < extent && position.y > 0 && position.y < extent) {
            return false;
        }
        let col: i64 = floor_div_mod(position.x, SCALE).0;
        let row: i64 = floor_div_mod(position.y, SCALE).0;
        proof {
            vstd::arithmetic::div_mod::lemma_div_is_ordered(position.x as int, extent as int, SCALE as int);
            vstd::arithmetic::div_mod::lemma_div_is_ordered(position.y as int, extent as int, SCALE as int);
            vstd::arithmetic::div_mod::lemma_div_multiples_vanish(self.size as int, SCALE as int);
        }
        assert(col < self.size && row < self.size) by {
            // x < size * SCALE, so x / SCALE < size
            vstd::arithmetic::div_mod::lemma_div_by_multiple_is_strongly_ordered(
                position.x as int, extent as int, self.size as int, SCALE as int);
            vstd::arithmetic::div_mod::lemma_div_by_multiple_is_strongly_ordered(
                position.y as int, extent as int, self.size as int, SCALE as int);
        }
        self.get(row as usize, col as usize) == Wall::Wall
    }
}

} // verus!
