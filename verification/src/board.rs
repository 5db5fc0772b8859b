//! The board in play: the grid, the status of every cell and the counters.

use crate::board_view::{flipped, BoardView, Layout};
use crate::coordinates::Coordinates;
use crate::grid::{lemma_area_fits, lemma_row_major};
use crate::tally::{
    both, count_true, lemma_count_all, lemma_count_bound, lemma_count_none, lemma_count_split,
    lemma_count_update, lemma_count_zero, only,
};
use crate::tile::{BoardError, Tile, TileStatus};
use crate::tile_map::TileMap;
use vstd::arithmetic::div_mod::lemma_fundamental_div_mod;
use vstd::prelude::*;

verus! {

/// A round of the game: a generated grid and what the player has made of it.
pub struct Board {
    pub(crate) tile_map: TileMap,
    pub(crate) statuses: Vec<TileStatus>,
    pub(crate) layout: Layout,
    pub(crate) covered_count: u32,
    pub(crate) mines_remaining: u32,
    pub(crate) flag_count: u32,
}

impl View for Board {
    type V = BoardView;

    open(crate) spec fn view(&self) -> BoardView {
        BoardView { grid: self.tile_map@, statuses: self.statuses@, layout: self.layout }
    }
}

/// `columns` whole tiles of the given size end at or before a position that
/// lies in a later column.
proof fn lemma_columns_before(columns: int, column: int, tile_size: int)
    requires
        0 <= columns <= column,
        tile_size >= 1,
    ensures
        columns * tile_size <= column * tile_size,
        0 <= columns * tile_size,
{
    assert(columns * tile_size <= column * tile_size) by (nonlinear_arith)
        requires
            0 <= columns <= column,
            tile_size >= 1,
    ;
    assert(0 <= columns * tile_size) by (nonlinear_arith)
        requires
            0 <= columns,
            tile_size >= 1,
    ;
}

/// The column of tiles that a position falls into, if it is one of the
/// first `count`; `offset` is the position relative to the first column.
fn column_of(offset: i64, tile_size: u32, count: u16) -> (r: Option<u16>)
    requires
        tile_size >= 1,
    ensures
        match r {
            Some(k) => k < count && k == (offset as int) / (tile_size as int) && k * tile_size
                <= offset < k * tile_size + tile_size,
            None => !(0 <= (offset as int) / (tile_size as int) < (count as int)) && forall|k: int|
                0 <= k < count ==> !(#[trigger] (k * tile_size) <= offset < k * tile_size
                    + tile_size),
        },
{
    let ghost quotient = (offset as int) / (tile_size as int);
    proof {
        lemma_fundamental_div_mod(offset as int, tile_size as int);
        assert(tile_size * quotient == quotient * tile_size) by (nonlinear_arith);
    }
    if offset < 0 {
        assert(quotient < 0) by (nonlinear_arith)
            requires
                quotient * tile_size + ((offset as int) % (tile_size as int)) == offset,
                0 <= (offset as int) % (tile_size as int),
                offset < 0,
                tile_size >= 1,
        ;
        assert forall|k: int| 0 <= k < count implies !(#[trigger] (k * tile_size) <= offset < k
            * tile_size + tile_size) by {
            lemma_columns_before(0, k, tile_size as int);
        }
        return None;
    }
    let k: i64 = offset / (tile_size as i64);
    proof {
        assert(0 <= quotient) by (nonlinear_arith)
            requires
                0 <= offset,
                tile_size >= 1,
                quotient == (offset as int) / (tile_size as int),
        ;
    }
    if k >= count as i64 {
        assert forall|j: int| 0 <= j < count implies !(#[trigger] (j * tile_size) <= offset < j
            * tile_size + tile_size) by {
            lemma_columns_before(j + 1, k as int, tile_size as int);
            assert((j + 1) * tile_size == j * tile_size + tile_size) by (nonlinear_arith);
        }
        return None;
    }
    Some(k as u16)
}

impl Board {
    /// The model is well formed and the counters hold what the statuses say.
    pub open(crate) spec fn wf(&self) -> bool {
        &&& self.tile_map.wf()
        &&& self@.wf()
        &&& self.covered_count == self@.covered_count()
        &&& self.mines_remaining == self@.mines_remaining()
        &&& self.flag_count == self@.flag_count()
    }

    /// A board over the grid with every cell covered.
    ///
    /// Fails with `InvalidConfiguration` where the layout is not valid.
    pub fn new(tile_map: TileMap, layout: Layout) -> (r: Result<Board, BoardError>)
        requires
            tile_map.wf(),
        ensures
            r is Ok <==> layout.valid(),
            r is Err ==> r->Err_0 == BoardError::InvalidConfiguration,
            r matches Ok(board) ==> {
                &&& board.wf()
                &&& board@.grid == tile_map@
                &&& board@.layout == layout
                &&& board@.fresh()
            },
    {
        if layout.tile_size == 0 || layout.padding >= layout.tile_size {
            return Err(BoardError::InvalidConfiguration);
        }
        let width = tile_map.width();
        let height = tile_map.height();
        proof {
            tile_map.lemma_wf();
            lemma_area_fits(width as nat, height as nat);
        }
        let area: usize = width as usize * height as usize;
        let statuses = Self::all_covered(area);
        let mines_remaining = tile_map.mine_count();
        let board = Board {
            tile_map,
            statuses,
            layout,
            covered_count: area as u32,
            mines_remaining,
            flag_count: 0,
        };
        proof {
            lemma_count_all(board@.hidden());
            lemma_count_none(board@.flagged());
            assert(both(board@.hidden(), board@.grid.mine_flags()) =~= board@.grid.mine_flags());
        }
        Ok(board)
    }

    fn all_covered(area: usize) -> (statuses: Vec<TileStatus>)
        ensures
            statuses.len() == area,
            forall|i: int| 0 <= i < area ==> (#[trigger] statuses[i]) is Covered,
    {
        let mut statuses: Vec<TileStatus> = Vec::new();
        let mut i: usize = 0;
        while i < area
            invariant
                i <= area,
                statuses.len() == i,
                forall|j: int| 0 <= j < i ==> (#[trigger] statuses[j]) is Covered,
            decreases area - i,
        {
            statuses.push(TileStatus::Covered);
            i = i + 1;
        }
        statuses
    }

    /// The row-major position of a cell of the grid.
    pub(crate) fn position(&self, c: Coordinates) -> (idx: usize)
        requires
            self.wf(),
            self@.contains(c),
        ensures
            idx == self@.grid.index(c),
            idx < self.statuses.len(),
    {
        proof {
            lemma_area_fits(self@.grid.width, self@.grid.height);
            lemma_row_major(self@.grid.width, self@.grid.height, c.x as int, c.y as int);
        }
        c.y as usize * self.tile_map.width() as usize + c.x as usize
    }

    pub fn tile_map(&self) -> (map: &TileMap)
        ensures
            map@ == self@.grid,
            self.wf() ==> map.wf(),
    {
        &self.tile_map
    }

    pub fn layout(&self) -> (layout: Layout)
        ensures
            layout == self@.layout,
    {
        self.layout
    }

    pub fn width(&self) -> (w: u16)
        ensures
            w == self@.grid.width,
    {
        self.tile_map.width()
    }

    pub fn height(&self) -> (h: u16)
        ensures
            h == self@.grid.height,
    {
        self.tile_map.height()
    }

    pub fn contains(&self, c: Coordinates) -> (r: bool)
        ensures
            r == self@.contains(c),
    {
        self.tile_map.contains(c)
    }

    /// The number of cells that are not uncovered.
    pub fn covered_count(&self) -> (n: u32)
        requires
            self.wf(),
        ensures
            n == self@.covered_count(),
    {
        self.covered_count
    }

    /// The number of cells that are uncovered.
    pub fn uncovered_count(&self) -> (n: u32)
        requires
            self.wf(),
        ensures
            n + self@.covered_count() == self@.grid.area(),
    {
        proof {
            lemma_area_fits(self@.grid.width, self@.grid.height);
            lemma_count_bound(self@.hidden());
        }
        let area: u32 = self.tile_map.width() as u32 * self.tile_map.height() as u32;
        area - self.covered_count
    }

    /// The number of mines that are not uncovered.
    pub fn mines_remaining(&self) -> (n: u32)
        requires
            self.wf(),
        ensures
            n == self@.mines_remaining(),
    {
        self.mines_remaining
    }

    /// The number of cells that carry a flag.
    pub fn flag_count(&self) -> (n: u32)
        requires
            self.wf(),
        ensures
            n == self@.flag_count(),
    {
        self.flag_count
    }

    /// The mines that are left once every flag is taken to stand on one;
    /// negative where there are more flags than mines.
    pub fn remaining_mine_estimate(&self) -> (n: i64)
        requires
            self.wf(),
        ensures
            n == self@.mines_remaining() - self@.flag_count(),
    {
        self.mines_remaining as i64 - self.flag_count as i64
    }

    /// The status of a cell, or `OutOfBounds` for a cell outside the grid.
    pub fn status_of(&self, c: Coordinates) -> (r: Result<TileStatus, BoardError>)
        requires
            self.wf(),
        ensures
            self@.contains(c) ==> r == Ok::<TileStatus, BoardError>(self@.status(c)),
            !self@.contains(c) ==> r == Err::<TileStatus, BoardError>(BoardError::OutOfBounds),
    {
        if !self.tile_map.contains(c) {
            return Err(BoardError::OutOfBounds);
        }
        let idx = self.position(c);
        Ok(self.statuses[idx])
    }

    /// The status under which to show a cell once the round is over, or
    /// `OutOfBounds` for a cell outside the grid. The board itself stays
    /// as it is.
    pub fn status_for_display(&self, c: Coordinates) -> (r: Result<TileStatus, BoardError>)
        requires
            self.wf(),
        ensures
            self@.contains(c) ==> r == Ok::<TileStatus, BoardError>(self@.shown(c)),
            !self@.contains(c) ==> r == Err::<TileStatus, BoardError>(BoardError::OutOfBounds),
    {
        let status = match self.status_of(c) {
            Ok(status) => status,
            Err(error) => {
                return Err(error);
            },
        };
        let mined = match self.tile_map.tile(c) {
            Ok(tile) => tile.is_mine(),
            Err(_) => false,
        };
        match status {
            TileStatus::Flagged => if mined {
                Ok(TileStatus::FlaggedBomb)
            } else {
                Ok(TileStatus::Flagged)
            },
            other => Ok(other),
        }
    }

    /// The tile of a cell, or `OutOfBounds` for a cell outside the grid.
    pub fn tile_at(&self, c: Coordinates) -> (r: Result<Tile, BoardError>)
        requires
            self.wf(),
        ensures
            self@.contains(c) ==> r == Ok::<Tile, BoardError>(self@.tile(c)),
            !self@.contains(c) ==> r == Err::<Tile, BoardError>(BoardError::OutOfBounds),
    {
        self.tile_map.tile(c)
    }

    /// Sets or removes the flag on a covered cell and returns the new status.
    ///
    /// Fails with `OutOfBounds` for a cell outside the grid and with
    /// `InvalidOperation` for an uncovered cell; the board is then unchanged.
    /// A flag that was confirmed on a mine stays as it is.
    pub fn toggle_flag(&mut self, c: Coordinates) -> (r: Result<TileStatus, BoardError>)
        requires
            old(self).wf(),
        ensures
            final(self).wf(),
            !old(self)@.contains(c) ==> r == Err::<TileStatus, BoardError>(
                BoardError::OutOfBounds,
            ) && final(self)@ == old(self)@,
            old(self)@.contains(c) && old(self)@.status(c) is Uncovered ==> r == Err::<
                TileStatus,
                BoardError,
            >(BoardError::InvalidOperation) && final(self)@ == old(self)@,
            old(self)@.contains(c) && !(old(self)@.status(c) is Uncovered) ==> r == Ok::<
                TileStatus,
                BoardError,
            >(flipped(old(self)@.status(c))) && final(self)@ == old(self)@.after_toggle(c),
    {
        if !self.tile_map.contains(c) {
            return Err(BoardError::OutOfBounds);
        }
        let idx = self.position(c);
        let ghost before = self@;
        match self.statuses[idx] {
            TileStatus::Uncovered => Err(BoardError::InvalidOperation),
            TileStatus::FlaggedBomb => {
                assert(before.statuses.update(idx as int, TileStatus::FlaggedBomb)
                    =~= before.statuses);
                Ok(TileStatus::FlaggedBomb)
            },
            TileStatus::Covered => {
                proof {
                    lemma_count_bound(before.flagged());
                    lemma_area_fits(before.grid.width, before.grid.height);
                    lemma_count_update(before.flagged(), idx as int, true);
                }
                self.statuses.set(idx, TileStatus::Flagged);
                self.flag_count = self.flag_count + 1;
                proof {
                    assert(self@.flagged() =~= before.flagged().update(idx as int, true));
                    assert(self@.hidden() =~= before.hidden());
                }
                Ok(TileStatus::Flagged)
            },
            TileStatus::Flagged => {
                proof {
                    lemma_count_update(before.flagged(), idx as int, false);
                }
                self.statuses.set(idx, TileStatus::Covered);
                self.flag_count = self.flag_count - 1;
                proof {
                    assert(self@.flagged() =~= before.flagged().update(idx as int, false));
                    assert(self@.hidden() =~= before.hidden());
                }
                Ok(TileStatus::Covered)
            },
        }
    }

    /// The cell whose square the screen position (`x`, `y`) falls into, or
    /// `None` where the position lies outside the grid.
    pub fn screen_to_coordinate(&self, x: i32, y: i32) -> (r: Option<Coordinates>)
        requires
            self.wf(),
        ensures
            r == self@.cell_under(x as int, y as int),
            match r {
                Some(c) => self@.contains(c) && self@.layout.covers(c, x as int, y as int),
                None => forall|c: Coordinates|
                    self@.contains(c) ==> !#[trigger] self@.layout.covers(c, x as int, y as int),
            },
    {
        let ghost size = self.layout.tile_size as int;
        let dx: i64 = x as i64 - self.layout.origin_x as i64;
        let dy: i64 = y as i64 - self.layout.origin_y as i64;
        let column = column_of(dx, self.layout.tile_size, self.tile_map.width());
        let row = column_of(dy, self.layout.tile_size, self.tile_map.height());
        match (column, row) {
            (Some(cx), Some(cy)) => Some(Coordinates { x: cx, y: cy }),
            _ => {
                assert forall|c: Coordinates| self@.contains(c) implies !#[trigger] self@.layout.covers(
                    c,
                    x as int,
                    y as int,
                ) by {
                    let kx = c.x as int;
                    let ky = c.y as int;
                    if column is None {
                        assert(!((kx * size) <= dx < kx * size + size));
                    } else {
                        assert(!((ky * size) <= dy < ky * size + size));
                    }
                }
                None
            },
        }
    }

    /// Whether the round is won: every tile without a mine is uncovered.
    pub fn is_cleared(&self) -> (r: bool)
        requires
            self.wf(),
        ensures
            r == self@.cleared(),
    {
        proof {
            self.lemma_cleared_by_count();
        }
        self.covered_count == self.mines_remaining
    }

    /// The round is won exactly when as many cells are covered as mines are hidden.
    pub proof fn lemma_cleared_by_count(&self)
        requires
            self.wf(),
        ensures
            self@.cleared() <==> self@.covered_count() == self@.mines_remaining(),
    {
        let view = self@;
        let hidden = view.hidden();
        let mines = view.grid.mine_flags();
        lemma_count_split(hidden, mines);
        lemma_count_zero(only(hidden, mines));
        if view.cleared() {
            assert forall|i: int| 0 <= i < hidden.len() implies !only(hidden, mines)[i] by {
                view.grid.lemma_cell(i);
                assert(view.status(view.grid.cell(i)) == view.statuses[i]);
            }
        }
        if view.covered_count() == view.mines_remaining() {
            assert forall|c: Coordinates| view.contains(c) && !(view.tile(c) is Mine) implies (
            #[trigger] view.status(c)) is Uncovered by {
                view.grid.lemma_index(c);
                assert(!only(hidden, mines)[view.grid.index(c)]);
            }
        }
    }

    /// Covers every cell again and removes every flag; the grid stays.
    pub fn restart(&mut self)
        requires
            old(self).wf(),
        ensures
            final(self).wf(),
            final(self)@ == old(self)@.restarted(),
            final(self)@.fresh(),
    {
        proof {
            self.tile_map.lemma_wf();
            lemma_area_fits(self@.grid.width, self@.grid.height);
        }
        let area: usize = self.tile_map.width() as usize * self.tile_map.height() as usize;
        self.statuses = Self::all_covered(area);
        self.covered_count = area as u32;
        self.mines_remaining = self.tile_map.mine_count();
        self.flag_count = 0;
        proof {
            assert(self@.statuses =~= old(self)@.restarted().statuses);
            lemma_count_all(self@.hidden());
            lemma_count_none(self@.flagged());
            assert(both(self@.hidden(), self@.grid.mine_flags()) =~= self@.grid.mine_flags());
        }
    }

    /// Uncovers one openable cell.
    pub(crate) fn open_cell(&mut self, c: Coordinates)
        requires
            old(self).wf(),
            old(self)@.openable(c),
        ensures
            final(self).wf(),
            final(self).tile_map == old(self).tile_map,
            final(self).layout == old(self).layout,
            final(self)@.statuses == old(self)@.statuses.update(
                old(self)@.grid.index(c),
                TileStatus::Uncovered,
            ),
            final(self).covered_count == old(self).covered_count - 1,
            final(self).flag_count == old(self).flag_count,
            final(self).mines_remaining == if old(self)@.tile(c) is Mine {
                old(self).mines_remaining - 1
            } else {
                old(self).mines_remaining as int
            },
    {
        let idx = self.position(c);
        let ghost before = self@;
        let ghost mines = before.grid.mine_flags();
        proof {
            lemma_count_update(before.hidden(), idx as int, false);
            lemma_count_update(both(before.hidden(), mines), idx as int, false);
        }
        let mined = match self.tile_map.tile(c) {
            Ok(tile) => tile.is_mine(),
            Err(_) => false,
        };
        self.statuses.set(idx, TileStatus::Uncovered);
        self.covered_count = self.covered_count - 1;
        if mined {
            self.mines_remaining = self.mines_remaining - 1;
        }
        proof {
            assert(self@.hidden() =~= before.hidden().update(idx as int, false));
            assert(self@.flagged() =~= before.flagged());
            assert(both(self@.hidden(), mines) =~= both(before.hidden(), mines).update(
                idx as int,
                false,
            ));
        }
    }
}

} // verus!
