//! Saving a round and taking it up again.

use crate::board::Board;
use crate::board_view::{BoardView, Layout};
use crate::coordinates::Coordinates;
use crate::grid::{lemma_area_fits, lemma_row_major, Grid};
use crate::tally::{both, count_true, lemma_count_push};
use crate::tile::{BoardError, Tile, TileStatus};
use crate::tile_map::TileMap;
use vstd::prelude::*;

verus! {

/// A round as it is kept between sessions: the extent of the grid, its
/// tiles and their statuses, both row by row, and the layout.
#[derive(Debug, PartialEq, Eq)]
pub struct Snapshot {
    pub width: u16,
    pub height: u16,
    pub tiles: Vec<Tile>,
    pub statuses: Vec<TileStatus>,
    pub layout: Layout,
}

impl View for Snapshot {
    type V = BoardView;

    open spec fn view(&self) -> BoardView {
        BoardView {
            grid: Grid { width: self.width as nat, height: self.height as nat, tiles: self.tiles@ },
            statuses: self.statuses@,
            layout: self.layout,
        }
    }
}

impl BoardView {
    /// The board is well formed and at least one of its cells is free of a mine.
    pub open spec fn playable(self) -> bool {
        self.wf() && self.grid.playable()
    }
}

/// The counters that belong to the statuses: the cells that are not
/// uncovered, the mines among them, and the flags.
fn count_statuses(map: &TileMap, statuses: &Vec<TileStatus>, layout: Layout) -> (counts: (
    u32,
    u32,
    u32,
))
    requires
        map.wf(),
        statuses.len() == map@.area(),
    ensures
        ({
            let view = BoardView { grid: map@, statuses: statuses@, layout };
            &&& counts.0 == view.covered_count()
            &&& counts.1 == view.mines_remaining()
            &&& counts.2 == view.flag_count()
        }),
{
    let ghost view = BoardView { grid: map@, statuses: statuses@, layout };
    let ghost hidden = view.hidden();
    let ghost flagged = view.flagged();
    let ghost hidden_mines = both(view.hidden(), view.grid.mine_flags());
    let width = map.width();
    let height = map.height();
    let ghost w = width as nat;
    let ghost h = height as nat;
    let mut covered: u32 = 0;
    let mut mines: u32 = 0;
    let mut flags: u32 = 0;
    let mut y: u16 = 0;
    proof {
        map.lemma_wf();
        lemma_area_fits(w, h);
        assert(hidden.take(0) =~= Seq::<bool>::empty());
        assert(flagged.take(0) =~= Seq::<bool>::empty());
        assert(hidden_mines.take(0) =~= Seq::<bool>::empty());
    }
    while y < height
        invariant
            y <= height,
            map.wf(),
            map@.wf(),
            w == width == map@.width,
            h == height == map@.height,
            statuses.len() == w * h,
            w * h <= 0xFFFE_0001,
            view == (BoardView { grid: map@, statuses: statuses@, layout }),
            hidden == view.hidden(),
            flagged == view.flagged(),
            hidden_mines == both(view.hidden(), view.grid.mine_flags()),
            0 <= y * w <= statuses.len(),
            covered == count_true(hidden.take(y * w)),
            mines == count_true(hidden_mines.take(y * w)),
            flags == count_true(flagged.take(y * w)),
            covered <= y * w,
            mines <= y * w,
            flags <= y * w,
        decreases height - y,
    {
        let mut x: u16 = 0;
        while x < width
            invariant
                x <= width,
                y < height,
                map.wf(),
                map@.wf(),
                w == width == map@.width,
                h == height == map@.height,
                statuses.len() == w * h,
                w * h <= 0xFFFE_0001,
                view == (BoardView { grid: map@, statuses: statuses@, layout }),
                hidden == view.hidden(),
                flagged == view.flagged(),
                hidden_mines == both(view.hidden(), view.grid.mine_flags()),
                0 <= y * w + x <= statuses.len(),
                covered == count_true(hidden.take(y * w + x)),
                mines == count_true(hidden_mines.take(y * w + x)),
                flags == count_true(flagged.take(y * w + x)),
                covered <= y * w + x,
                mines <= y * w + x,
                flags <= y * w + x,
            decreases width - x,
        {
            let c = Coordinates { x, y };
            proof {
                lemma_row_major(w, h, x as int, y as int);
            }
            let idx: usize = y as usize * width as usize + x as usize;
            let status = statuses[idx];
            let mined = match map.tile(c) {
                Ok(tile) => tile.is_mine(),
                Err(_) => false,
            };
            proof {
                let i = idx as int;
                assert(hidden.take(i + 1) =~= hidden.take(i).push(hidden[i]));
                assert(flagged.take(i + 1) =~= flagged.take(i).push(flagged[i]));
                assert(hidden_mines.take(i + 1) =~= hidden_mines.take(i).push(hidden_mines[i]));
                lemma_count_push(hidden.take(i), hidden[i]);
                lemma_count_push(flagged.take(i), flagged[i]);
                lemma_count_push(hidden_mines.take(i), hidden_mines[i]);
                assert(view.grid.tile(c) == view.grid.tiles[i]);
            }
            if !status.is_uncovered() {
                covered = covered + 1;
                if mined {
                    mines = mines + 1;
                }
            }
            if status.is_flagged() {
                flags = flags + 1;
            }
            x = x + 1;
        }
        assert((y + 1) * w == y * w + w) by (nonlinear_arith);
        y = y + 1;
    }
    proof {
        assert(h * w == w * h) by (nonlinear_arith);
        assert(hidden.take(statuses@.len() as int) =~= hidden);
        assert(flagged.take(statuses@.len() as int) =~= flagged);
        assert(hidden_mines.take(statuses@.len() as int) =~= hidden_mines);
    }
    (covered, mines, flags)
}

fn copy_statuses(statuses: &Vec<TileStatus>) -> (copy: Vec<TileStatus>)
    ensures
        copy@ == statuses@,
{
    let mut copy: Vec<TileStatus> = Vec::new();
    let mut i: usize = 0;
    while i < statuses.len()
        invariant
            i <= statuses.len(),
            copy@ == statuses@.take(i as int),
        decreases statuses.len() - i,
    {
        copy.push(statuses[i]);
        assert(statuses@.take(i + 1) =~= statuses@.take(i as int).push(statuses@[i as int]));
        i = i + 1;
    }
    assert(statuses@.take(i as int) =~= statuses@);
    copy
}

impl Board {
    /// The round as it is to be kept.
    pub fn save(&self) -> (snapshot: Snapshot)
        requires
            self.wf(),
        ensures
            snapshot@ == self@,
            snapshot@.playable(),
    {
        proof {
            self.tile_map.lemma_wf();
        }
        Snapshot {
            width: self.tile_map.width(),
            height: self.tile_map.height(),
            tiles: self.tile_map.tiles(),
            statuses: copy_statuses(&self.statuses),
            layout: self.layout,
        }
    }

    /// Takes up the round that was kept.
    ///
    /// Fails with `InvalidConfiguration` unless the snapshot holds a
    /// playable board: tiles that fit the mines among them, a status for
    /// every tile and a valid layout.
    pub fn restore(snapshot: &Snapshot) -> (r: Result<Board, BoardError>)
        ensures
            r is Ok <==> snapshot@.playable(),
            r is Err ==> r->Err_0 == BoardError::InvalidConfiguration,
            r matches Ok(board) ==> board.wf() && board@ == snapshot@,
    {
        if snapshot.layout.tile_size == 0 || snapshot.layout.padding >= snapshot.layout.tile_size {
            return Err(BoardError::InvalidConfiguration);
        }
        let tile_map = match TileMap::from_tiles(snapshot.width, snapshot.height, &snapshot.tiles) {
            Ok(map) => map,
            Err(error) => {
                return Err(error);
            },
        };
        proof {
            tile_map.lemma_wf();
            lemma_area_fits(snapshot.width as nat, snapshot.height as nat);
        }
        let area: usize = snapshot.width as usize * snapshot.height as usize;
        if snapshot.statuses.len() != area {
            return Err(BoardError::InvalidConfiguration);
        }
        let statuses = copy_statuses(&snapshot.statuses);
        let counts = count_statuses(&tile_map, &statuses, snapshot.layout);
        Ok(
            Board {
                tile_map,
                statuses,
                layout: snapshot.layout,
                covered_count: counts.0,
                mines_remaining: counts.1,
                flag_count: counts.2,
            },
        )
    }
}

} // verus!
