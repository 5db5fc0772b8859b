//! The mathematical model of a generated grid.

use crate::coordinates::Coordinates;
use crate::tally::count_true;
use crate::tile::Tile;
use vstd::arithmetic::div_mod::{lemma_fundamental_div_mod, lemma_fundamental_div_mod_converse};
use vstd::prelude::*;

verus! {

/// 1 for `true`, 0 for `false`.
pub open spec fn bit(b: bool) -> nat {
    if b {
        1
    } else {
        0
    }
}

/// Column `x`, row `y` is a cell of a `width` by `height` grid and is marked
/// in the row-major sequence `flags`.
pub open spec fn mined(flags: Seq<bool>, width: nat, height: nat, x: int, y: int) -> bool {
    0 <= x < width && 0 <= y < height && flags[y * width + x]
}

/// The number of marked cells among the up to eight neighbours of column `x`, row `y`.
pub open spec fn mined_around(flags: Seq<bool>, width: nat, height: nat, x: int, y: int) -> nat {
    bit(mined(flags, width, height, x - 1, y - 1)) + bit(mined(flags, width, height, x, y - 1))
        + bit(mined(flags, width, height, x + 1, y - 1)) + bit(
        mined(flags, width, height, x - 1, y),
    ) + bit(mined(flags, width, height, x + 1, y)) + bit(
        mined(flags, width, height, x - 1, y + 1),
    ) + bit(mined(flags, width, height, x, y + 1)) + bit(
        mined(flags, width, height, x + 1, y + 1),
    )
}

/// The tile that column `x`, row `y` holds when the mines lie where `flags` says.
pub open spec fn planned(flags: Seq<bool>, width: nat, height: nat, x: int, y: int) -> Tile {
    if mined(flags, width, height, x, y) {
        Tile::Mine
    } else {
        Tile::numbered(mined_around(flags, width, height, x, y))
    }
}

/// The cell that stands at a row-major position of a grid `width` cells wide.
pub open spec fn cell_at(width: nat, i: int) -> Coordinates {
    Coordinates { x: (i % (width as int)) as u16, y: (i / (width as int)) as u16 }
}

/// A `width` by `height` grid of tiles, stored row by row.
pub struct Grid {
    pub width: nat,
    pub height: nat,
    pub tiles: Seq<Tile>,
}

impl Grid {
    /// The number of cells.
    pub open spec fn area(self) -> nat {
        self.width * self.height
    }

    pub open spec fn contains(self, c: Coordinates) -> bool {
        c.within(self.width, self.height)
    }

    /// The position of a cell in row-major order.
    pub open spec fn index(self, c: Coordinates) -> int {
        c.y * self.width + c.x
    }

    /// The cell that stands at a row-major position.
    pub open spec fn cell(self, i: int) -> Coordinates {
        cell_at(self.width, i)
    }

    pub open spec fn tile(self, c: Coordinates) -> Tile {
        self.tiles[self.index(c)]
    }

    /// Column `x`, row `y` is a cell of the grid and holds a mine.
    pub open spec fn mine_at(self, x: int, y: int) -> bool {
        mined(self.mine_flags(), self.width, self.height, x, y)
    }

    /// The number of mines among the up to eight neighbours of a cell.
    pub open spec fn mines_around(self, c: Coordinates) -> nat {
        mined_around(self.mine_flags(), self.width, self.height, c.x as int, c.y as int)
    }

    /// The tile that a cell must hold, given where the mines are.
    pub open spec fn expected(self, c: Coordinates) -> Tile {
        planned(self.mine_flags(), self.width, self.height, c.x as int, c.y as int)
    }

    /// For each row-major position, whether it holds a mine.
    pub open spec fn mine_flags(self) -> Seq<bool> {
        Seq::new(self.tiles.len(), |i: int| self.tiles[i] is Mine)
    }

    /// The number of mines on the grid.
    pub open spec fn mine_total(self) -> nat {
        count_true(self.mine_flags())
    }

    /// Every cell holds the tile that the mines around it call for.
    pub open spec fn wf(self) -> bool {
        &&& 1 <= self.width <= u16::MAX
        &&& 1 <= self.height <= u16::MAX
        &&& self.tiles.len() == self.area()
        &&& forall|c: Coordinates| self.contains(c) ==> #[trigger] self.tile(c) == self.expected(c)
    }

    /// The grid is well formed and at least one of its cells is free of a mine.
    pub open spec fn playable(self) -> bool {
        self.wf() && self.mine_total() < self.area()
    }

    /// Row-major positions and cells inside the grid correspond one to one.
    pub proof fn lemma_index(self, c: Coordinates)
        requires
            self.contains(c),
        ensures
            0 <= self.index(c) < self.area(),
            self.cell(self.index(c)) == c,
    {
        lemma_row_major(self.width, self.height, c.x as int, c.y as int);
    }

    pub proof fn lemma_cell(self, i: int)
        requires
            0 <= i < self.area(),
            self.width <= u16::MAX,
            self.height <= u16::MAX,
        ensures
            self.contains(self.cell(i)),
            self.index(self.cell(i)) == i,
    {
        lemma_row_major_inverse(self.width, self.height, i);
    }

    /// Around an empty tile of a well-formed grid there is no mine.
    pub proof fn lemma_empty_has_no_mine_around(self, c: Coordinates, n: Coordinates)
        requires
            self.wf(),
            self.contains(c),
            self.contains(n),
            self.tile(c) is Empty,
            c.adjacent(n),
        ensures
            !(self.tile(n) is Mine),
    {
        assert(self.tile(c) == self.expected(c));
        assert(self.mines_around(c) == 0);
        self.lemma_index(n);
        assert(self.mine_at(n.x as int, n.y as int) == (self.tile(n) is Mine));
    }
}

/// The product of two 16-bit extents fits in 32 bits.
pub proof fn lemma_area_fits(width: nat, height: nat)
    requires
        width <= u16::MAX,
        height <= u16::MAX,
    ensures
        width * height <= 0xFFFE_0001,
{
    assert(width * height <= 0xFFFF * 0xFFFF) by (nonlinear_arith)
        requires
            width <= 0xFFFF,
            height <= 0xFFFF,
    ;
}

/// The row-major position of column `x`, row `y` lies inside the grid and
/// gives back the column and the row.
pub proof fn lemma_row_major(width: nat, height: nat, x: int, y: int)
    requires
        0 <= x < width,
        0 <= y < height,
    ensures
        0 <= y * width + x < width * height,
        (y * width + x) % (width as int) == x,
        (y * width + x) / (width as int) == y,
{
    assert(y * width + x < width * height) by (nonlinear_arith)
        requires
            0 <= x < width,
            0 <= y < height,
    ;
    assert(0 <= y * width) by (nonlinear_arith)
        requires
            0 <= y,
            0 <= width,
    ;
    lemma_fundamental_div_mod_converse(y * width + x, width as int, y, x);
}

/// A row-major position inside the grid splits into a column and a row.
pub proof fn lemma_row_major_inverse(width: nat, height: nat, i: int)
    requires
        0 <= i < width * height,
    ensures
        0 <= i % (width as int) < width,
        0 <= i / (width as int) < height,
        (i / (width as int)) * width + i % (width as int) == i,
{
    assert(width > 0) by (nonlinear_arith)
        requires
            0 <= i < width * height,
    ;
    let w = width as int;
    lemma_fundamental_div_mod(i, w);
    assert(w * (i / w) == (i / w) * w) by (nonlinear_arith);
    assert(0 <= i % w < w);
    assert(0 <= i / w < height) by (nonlinear_arith)
        requires
            0 <= i < w * height,
            i == w * (i / w) + i % w,
            0 <= i % w < w,
            w > 0,
    ;
}

} // verus!
