//! The mathematical model of a board in play, and what each operation makes of it.

use crate::coordinates::Coordinates;
use crate::grid::Grid;
use crate::tally::{both, count_true};
use crate::tile::{Tile, TileStatus};
use vstd::prelude::*;

verus! {

/// How the grid is laid out on the screen. A tile occupies a square of
/// `tile_size` units, of which `padding` units are left blank; the cell of
/// column 0, row 0 starts at (`origin_x`, `origin_y`).
#[derive(Clone, Copy, Debug, PartialEq, Eq, Structural)]
pub struct Layout {
    pub tile_size: u32,
    pub padding: u32,
    pub origin_x: i32,
    pub origin_y: i32,
}

impl Layout {
    /// A tile has a positive size and the padding leaves some of it visible.
    pub open spec fn valid(self) -> bool {
        self.tile_size >= 1 && self.padding < self.tile_size
    }

    /// The screen position at which the square of a cell starts.
    pub open spec fn cell_origin(self, c: Coordinates) -> (int, int) {
        (self.origin_x + c.x * self.tile_size, self.origin_y + c.y * self.tile_size)
    }

    /// The number of the column of tiles that the position `x` falls into,
    /// counted from the origin; negative before the origin. Rows alike.
    pub open spec fn column_under(self, x: int) -> int {
        (x - self.origin_x) / (self.tile_size as int)
    }

    pub open spec fn row_under(self, y: int) -> int {
        (y - self.origin_y) / (self.tile_size as int)
    }

    /// The screen position (`x`, `y`) falls into the square of the cell `c`.
    pub open spec fn covers(self, c: Coordinates, x: int, y: int) -> bool {
        let (left, top) = self.cell_origin(c);
        left <= x < left + self.tile_size && top <= y < top + self.tile_size
    }
}

/// The status that a press of the flag button turns a status into.
pub open spec fn flipped(status: TileStatus) -> TileStatus {
    match status {
        TileStatus::Covered => TileStatus::Flagged,
        TileStatus::Flagged => TileStatus::Covered,
        other => other,
    }
}

/// A grid together with the status of each of its cells, row by row.
pub struct BoardView {
    pub grid: Grid,
    pub statuses: Seq<TileStatus>,
    pub layout: Layout,
}

impl BoardView {
    pub open spec fn wf(self) -> bool {
        &&& self.grid.wf()
        &&& self.statuses.len() == self.grid.area()
        &&& self.layout.valid()
    }

    pub open spec fn contains(self, c: Coordinates) -> bool {
        self.grid.contains(c)
    }

    pub open spec fn tile(self, c: Coordinates) -> Tile {
        self.grid.tile(c)
    }

    pub open spec fn status(self, c: Coordinates) -> TileStatus {
        self.statuses[self.grid.index(c)]
    }

    /// The cell of the grid whose square the screen position falls into.
    pub open spec fn cell_under(self, x: int, y: int) -> Option<Coordinates> {
        let column = self.layout.column_under(x);
        let row = self.layout.row_under(y);
        if 0 <= column < self.grid.width && 0 <= row < self.grid.height {
            Some(Coordinates { x: column as u16, y: row as u16 })
        } else {
            None
        }
    }

    /// The status under which a cell is shown once the round is over: a
    /// flag that stands on a mine is shown as confirmed, every other cell
    /// as it is.
    pub open spec fn shown(self, c: Coordinates) -> TileStatus {
        if self.status(c) is Flagged && self.tile(c) is Mine {
            TileStatus::FlaggedBomb
        } else {
            self.status(c)
        }
    }

    /// For each row-major position, whether the cell is not uncovered.
    pub open spec fn hidden(self) -> Seq<bool> {
        Seq::new(self.statuses.len(), |i: int| !(self.statuses[i] is Uncovered))
    }

    /// For each row-major position, whether the cell carries a flag.
    pub open spec fn flagged(self) -> Seq<bool> {
        Seq::new(self.statuses.len(), |i: int| self.statuses[i].flagged())
    }

    /// The number of cells that are not uncovered.
    pub open spec fn covered_count(self) -> nat {
        count_true(self.hidden())
    }

    /// The number of cells that carry a flag.
    pub open spec fn flag_count(self) -> nat {
        count_true(self.flagged())
    }

    /// The number of mines that are not uncovered.
    pub open spec fn mines_remaining(self) -> nat {
        count_true(both(self.hidden(), self.grid.mine_flags()))
    }

    /// Every tile without a mine is uncovered.
    pub open spec fn cleared(self) -> bool {
        forall|c: Coordinates|
            self.contains(c) && !(self.tile(c) is Mine) ==> (#[trigger] self.status(c)) is Uncovered
    }

    /// Every cell is covered, as at the start of a round.
    pub open spec fn fresh(self) -> bool {
        forall|i: int| 0 <= i < self.statuses.len() ==> (#[trigger] self.statuses[i]) is Covered
    }

    /// The cell is on the grid and covered without a flag.
    pub open spec fn openable(self, c: Coordinates) -> bool {
        self.contains(c) && self.status(c) is Covered
    }

    /// The fill passes from the `i`-th cell of a path to the next one: the
    /// cell is empty and the next one touches it.
    pub open spec fn link(self, path: Seq<Coordinates>, i: int) -> bool {
        self.tile(path[i]) is Empty && path[i].adjacent(path[i + 1])
    }

    /// A path along which the fill spreads: every cell is openable, and each
    /// but the last is empty and touches its successor.
    pub open spec fn fill_path(self, path: Seq<Coordinates>) -> bool {
        &&& path.len() >= 1
        &&& forall|i: int| 0 <= i < path.len() ==> self.openable(#[trigger] path[i])
        &&& forall|i: int| 0 <= i < path.len() - 1 ==> #[trigger] self.link(path, i)
    }

    /// The fill that starts at `start` arrives at `target`.
    pub open spec fn reaches(self, start: Coordinates, target: Coordinates) -> bool {
        exists|path: Seq<Coordinates>|
            #[trigger] self.fill_path(path) && path[0] == start && path[path.len() - 1] == target
    }

    /// The cells that a fill from `start` arrives at.
    pub open spec fn region(self, start: Coordinates) -> Set<Coordinates> {
        Set::new(|target: Coordinates| self.reaches(start, target))
    }

    /// Every openable neighbour of `c` is among `done`.
    pub open spec fn sealed(self, done: Seq<Coordinates>, c: Coordinates) -> bool {
        forall|n: Coordinates| self.openable(n) && #[trigger] c.adjacent(n) ==> done.contains(n)
    }

    /// Uncovering the cell sets off a mine.
    pub open spec fn explodes(self, c: Coordinates) -> bool {
        self.openable(c) && self.tile(c) is Mine
    }

    /// The cells whose status an uncover at `c` changes: none where the cell
    /// is outside the grid, flagged or uncovered; the cell alone where it
    /// holds a mine; else the region that the fill from it arrives at.
    pub open spec fn uncovered_by(self, c: Coordinates) -> Set<Coordinates> {
        if !self.openable(c) {
            Set::empty()
        } else if self.tile(c) is Mine {
            set![c]
        } else {
            self.region(c)
        }
    }

    /// The board with the given cells uncovered and all others as they were.
    pub open spec fn with_uncovered(self, cells: Set<Coordinates>) -> BoardView {
        BoardView {
            statuses: Seq::new(
                self.statuses.len(),
                |i: int|
                    if cells.contains(self.grid.cell(i)) {
                        TileStatus::Uncovered
                    } else {
                        self.statuses[i]
                    },
            ),
            ..self
        }
    }

    /// The board after an uncover at `c`.
    pub open spec fn after_uncover(self, c: Coordinates) -> BoardView {
        self.with_uncovered(self.uncovered_by(c))
    }

    /// The board after the flag button was pressed on `c`.
    pub open spec fn after_toggle(self, c: Coordinates) -> BoardView {
        if self.contains(c) {
            BoardView {
                statuses: self.statuses.update(self.grid.index(c), flipped(self.status(c))),
                ..self
            }
        } else {
            self
        }
    }

    /// The board with every cell covered again.
    pub open spec fn restarted(self) -> BoardView {
        BoardView { statuses: Seq::new(self.statuses.len(), |i: int| TileStatus::Covered), ..self }
    }

    /// The cells of the grid whose status differs between this board and a later one.
    pub open spec fn changed_until(self, later: BoardView) -> Set<Coordinates> {
        Set::new(|c: Coordinates| self.contains(c) && self.status(c) != later.status(c))
    }

    /// The neighbours of a cell on this grid, row by row.
    pub open spec fn around(self, c: Coordinates) -> Seq<Coordinates> {
        c.neighbor_cells(self.grid.width, self.grid.height)
    }

    /// For each of the cells, whether it carries a flag.
    pub open spec fn flag_marks(self, cells: Seq<Coordinates>) -> Seq<bool> {
        Seq::new(cells.len(), |i: int| self.status(cells[i]).flagged())
    }

    /// The number of flagged cells among the neighbours of `c`.
    pub open spec fn flags_around(self, c: Coordinates) -> nat {
        count_true(self.flag_marks(self.around(c)))
    }

    /// The cell is an uncovered, numbered tile: the only kind from which the
    /// neighbours can be uncovered together.
    pub open spec fn chainable(self, c: Coordinates) -> bool {
        self.contains(c) && self.status(c) is Uncovered && self.tile(c) is MineNeighbor
    }

    /// As many neighbours of the numbered tile are flagged as it has mines around.
    pub open spec fn chain_ready(self, c: Coordinates) -> bool {
        self.chainable(c) && self.flags_around(c) == self.tile(c).reported()
    }

    /// The board after the cells were uncovered one after the other, up to
    /// and including the first that set off a mine.
    pub open spec fn chain(self, cells: Seq<Coordinates>) -> BoardView
        decreases cells.len(),
    {
        if cells.len() == 0 {
            self
        } else if self.explodes(cells[0]) {
            self.after_uncover(cells[0])
        } else {
            self.after_uncover(cells[0]).chain(cells.drop_first())
        }
    }

    /// The first of the cells that sets off a mine when they are uncovered
    /// one after the other, if any does.
    pub open spec fn chain_explosion(self, cells: Seq<Coordinates>) -> Option<Coordinates>
        decreases cells.len(),
    {
        if cells.len() == 0 {
            None
        } else if self.explodes(cells[0]) {
            Some(cells[0])
        } else {
            self.after_uncover(cells[0]).chain_explosion(cells.drop_first())
        }
    }

    /// The board after an adjacent-uncover was requested on `c`.
    pub open spec fn after_uncover_adjacent(self, c: Coordinates) -> BoardView {
        if self.chain_ready(c) {
            self.chain(self.around(c))
        } else {
            self
        }
    }

    /// The mine that an adjacent-uncover on `c` sets off, if any.
    pub open spec fn adjacent_explosion(self, c: Coordinates) -> Option<Coordinates> {
        if self.chain_ready(c) {
            self.chain_explosion(self.around(c))
        } else {
            None
        }
    }

    /// A cell of the grid is uncovered after `with_uncovered` if it is among
    /// the cells, and keeps its status otherwise.
    pub proof fn lemma_with_uncovered(self, cells: Set<Coordinates>, c: Coordinates)
        requires
            self.wf(),
            self.contains(c),
        ensures
            self.with_uncovered(cells).status(c) == if cells.contains(c) {
                TileStatus::Uncovered
            } else {
                self.status(c)
            },
            self.with_uncovered(cells).wf(),
    {
        self.grid.lemma_index(c);
    }

    /// The fill arrives at openable cells only.
    pub proof fn lemma_reaches_openable(self, start: Coordinates, target: Coordinates)
        requires
            self.reaches(start, target),
        ensures
            self.openable(start),
            self.openable(target),
    {
        let path = choose|path: Seq<Coordinates>|
            #[trigger] self.fill_path(path) && path[0] == start && path[path.len() - 1] == target;
        assert(self.openable(path[0]));
        assert(self.openable(path[path.len() - 1]));
    }

    /// An uncover changes openable cells only.
    pub proof fn lemma_uncovered_by_openable(self, c: Coordinates, target: Coordinates)
        requires
            self.uncovered_by(c).contains(target),
        ensures
            self.openable(target),
    {
        if self.openable(c) && !(self.tile(c) is Mine) {
            self.lemma_reaches_openable(c, target);
        }
    }

    /// The fill arrives at its own start.
    pub proof fn lemma_reaches_start(self, start: Coordinates)
        requires
            self.openable(start),
        ensures
            self.reaches(start, start),
    {
        let path = seq![start];
        assert(self.fill_path(path));
        assert(path[0] == start && path[path.len() - 1] == start);
    }

    /// Where the fill arrives at an empty tile, it goes on to each openable
    /// neighbour of it.
    pub proof fn lemma_reaches_step(self, start: Coordinates, from: Coordinates, next: Coordinates)
        requires
            self.reaches(start, from),
            self.tile(from) is Empty,
            from.adjacent(next),
            self.openable(next),
        ensures
            self.reaches(start, next),
    {
        let path = choose|path: Seq<Coordinates>|
            #[trigger] self.fill_path(path) && path[0] == start && path[path.len() - 1] == from;
        let longer = path.push(next);
        assert forall|i: int| 0 <= i < longer.len() implies self.openable(
            #[trigger] longer[i],
        ) by {
            if i < path.len() {
                assert(self.openable(path[i]));
            }
        }
        assert forall|i: int| 0 <= i < longer.len() - 1 implies #[trigger] self.link(
            longer,
            i,
        ) by {
            if i < path.len() - 1 {
                assert(self.link(path, i));
            }
        }
        assert(self.fill_path(longer));
        assert(longer[0] == start && longer[longer.len() - 1] == next);
    }
}

} // verus!
