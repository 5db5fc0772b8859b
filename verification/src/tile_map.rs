//! The generated grid: where the mines are and what every other tile reports.

use crate::coordinates::Coordinates;
use crate::grid::{
    bit, lemma_area_fits, lemma_row_major, lemma_row_major_inverse, mined, mined_around, planned,
    Grid,
};
use crate::placement::{eligible, eligible_cells, generable, lemma_eligible, shielded};
use crate::random::{draw_cells, drawn_cells, lemma_drawn_cells};
use crate::tally::{count_true, lemma_count_none, lemma_count_push, lemma_count_update};
use crate::tile::{BoardError, Tile};
use vstd::prelude::*;
use vstd::seq_lib::lemma_seq_contains_after_push;

verus! {

/// A rectangular grid of tiles, fixed once it is built.
pub struct TileMap {
    width: u16,
    height: u16,
    mine_count: u32,
    tiles: Vec<Tile>,
}

impl View for TileMap {
    type V = Grid;

    closed spec fn view(&self) -> Grid {
        Grid { width: self.width as nat, height: self.height as nat, tiles: self.tiles@ }
    }
}

/// A list of mine cells that a grid of the given extent can take: the grid is
/// not empty, the cells lie inside it, none is named twice, and at least one
/// cell stays free.
pub open spec fn placeable(width: nat, height: nat, mines: Seq<Coordinates>) -> bool {
    &&& width >= 1
    &&& height >= 1
    &&& mines.len() < width * height
    &&& mines.no_duplicates()
    &&& forall|i: int| 0 <= i < mines.len() ==> (#[trigger] mines[i]).within(width, height)
}

/// The cells that get a mine when a grid is generated with the seed `seed`.
pub open spec fn mine_cells(
    width: nat,
    height: nat,
    mine_count: nat,
    safe: Option<Coordinates>,
    seed: u64,
) -> Seq<Coordinates> {
    drawn_cells(eligible(width, height, safe), seed, mine_count)
}

/// Whether the row-major sequence `flags` marks the cell `c`.
pub open spec fn marked(flags: Seq<bool>, width: nat, c: Coordinates) -> bool {
    flags[c.y * width + c.x]
}

/// The tile planned for a row-major position.
pub open spec fn planned_at(flags: Seq<bool>, width: nat, height: nat, i: int) -> Tile {
    planned(flags, width, height, i % (width as int), i / (width as int))
}

fn is_mined(flags: &Vec<bool>, width: u16, height: u16, x: i32, y: i32) -> (r: bool)
    requires
        flags.len() == width * height,
    ensures
        r == mined(flags@, width as nat, height as nat, x as int, y as int),
{
    if 0 <= x && x < width as i32 && 0 <= y && y < height as i32 {
        proof {
            lemma_area_fits(width as nat, height as nat);
            lemma_row_major(width as nat, height as nat, x as int, y as int);
        }
        flags[y as usize * width as usize + x as usize]
    } else {
        false
    }
}

fn unit(b: bool) -> (n: u8)
    ensures
        n == bit(b),
{
    if b {
        1
    } else {
        0
    }
}

fn count_around(flags: &Vec<bool>, width: u16, height: u16, x: u16, y: u16) -> (n: u8)
    requires
        flags.len() == width * height,
    ensures
        n == mined_around(flags@, width as nat, height as nat, x as int, y as int),
{
    let cx: i32 = x as i32;
    let cy: i32 = y as i32;
    let a: u8 = unit(is_mined(flags, width, height, cx - 1, cy - 1));
    let b: u8 = unit(is_mined(flags, width, height, cx, cy - 1));
    let c: u8 = unit(is_mined(flags, width, height, cx + 1, cy - 1));
    let d: u8 = unit(is_mined(flags, width, height, cx - 1, cy));
    let e: u8 = unit(is_mined(flags, width, height, cx + 1, cy));
    let f: u8 = unit(is_mined(flags, width, height, cx - 1, cy + 1));
    let g: u8 = unit(is_mined(flags, width, height, cx, cy + 1));
    let h: u8 = unit(is_mined(flags, width, height, cx + 1, cy + 1));
    a + b + c + d + e + f + g + h
}

/// A row-major sequence of `area` unmarked cells.
fn unmarked(area: usize) -> (flags: Vec<bool>)
    ensures
        flags.len() == area,
        forall|j: int| 0 <= j < area ==> !flags[j],
        count_true(flags@) == 0,
{
    let mut flags: Vec<bool> = Vec::new();
    let mut i: usize = 0;
    while i < area
        invariant
            i <= area,
            flags.len() == i,
            forall|j: int| 0 <= j < i ==> !flags[j],
        decreases area - i,
    {
        flags.push(false);
        i = i + 1;
    }
    proof {
        lemma_count_none(flags@);
    }
    flags
}

/// The tiles that the marked cells call for, row by row.
fn lay_tiles(flags: &Vec<bool>, width: u16, height: u16) -> (tiles: Vec<Tile>)
    requires
        width >= 1,
        height >= 1,
        flags.len() == width * height,
    ensures
        tiles.len() == width * height,
        forall|j: int|
            0 <= j < tiles.len() ==> tiles[j] == #[trigger] planned_at(
                flags@,
                width as nat,
                height as nat,
                j,
            ),
{
    let ghost w = width as nat;
    let ghost h = height as nat;
    let mut tiles: Vec<Tile> = Vec::new();
    let mut y: u16 = 0;
    proof {
        lemma_area_fits(w, h);
    }
    while y < height
        invariant
            y <= height,
            w == width,
            h == height,
            width >= 1,
            flags.len() == w * h,
            w * h <= 0xFFFE_0001,
            tiles.len() == y * w,
            forall|j: int| 0 <= j < tiles.len() ==> tiles[j] == #[trigger] planned_at(flags@, w, h, j),
        decreases height - y,
    {
        let mut x: u16 = 0;
        while x < width
            invariant
                x <= width,
                y < height,
                w == width,
                h == height,
                flags.len() == w * h,
                w * h <= 0xFFFE_0001,
                tiles.len() == y * w + x,
                forall|j: int|
                    0 <= j < tiles.len() ==> tiles[j] == #[trigger] planned_at(flags@, w, h, j),
            decreases width - x,
        {
            proof {
                lemma_row_major(w, h, x as int, y as int);
            }
            let idx: usize = y as usize * width as usize + x as usize;
            let tile = if flags[idx] {
                Tile::Mine
            } else {
                let n: u8 = count_around(flags, width, height, x, y);
                if n == 0 {
                    Tile::Empty
                } else {
                    Tile::MineNeighbor(n)
                }
            };
            assert(tile == planned_at(flags@, w, h, idx as int));
            tiles.push(tile);
            x = x + 1;
        }
        assert((y + 1) * w == y * w + w) by (nonlinear_arith);
        y = y + 1;
    }
    assert(h * w == w * h) by (nonlinear_arith);
    tiles
}

/// The cells that hold a mine among the given tiles, row by row.
fn mines_of(width: u16, height: u16, tiles: &Vec<Tile>) -> (mines: Vec<Coordinates>)
    requires
        width >= 1,
        height >= 1,
        tiles.len() == width * height,
    ensures
        mines@.no_duplicates(),
        forall|c: Coordinates| #[trigger]
            mines@.contains(c) <==> c.within(width as nat, height as nat) && tiles[c.y * width
                + c.x] is Mine,
        mines@.len() == count_true(Seq::new(tiles@.len(), |i: int| tiles@[i] is Mine)),
{
    let ghost w = width as nat;
    let ghost h = height as nat;
    let ghost flags = Seq::new(tiles@.len(), |i: int| tiles@[i] is Mine);
    let mut mines: Vec<Coordinates> = Vec::new();
    let mut y: u16 = 0;
    proof {
        lemma_area_fits(w, h);
        assert(flags.take(0) =~= Seq::<bool>::empty());
    }
    while y < height
        invariant
            y <= height,
            w == width,
            h == height,
            width >= 1,
            tiles.len() == w * h,
            w * h <= 0xFFFE_0001,
            flags == Seq::new(tiles@.len(), |i: int| tiles@[i] is Mine),
            0 <= y * w <= tiles.len(),
            mines@.no_duplicates(),
            forall|c: Coordinates| #[trigger]
                mines@.contains(c) <==> c.within(w, h) && c.y * w + c.x < y * w && tiles[c.y * w
                    + c.x] is Mine,
            mines@.len() == count_true(flags.take(y * w)),
        decreases height - y,
    {
        let mut x: u16 = 0;
        while x < width
            invariant
                x <= width,
                y < height,
                w == width,
                h == height,
                tiles.len() == w * h,
                w * h <= 0xFFFE_0001,
                flags == Seq::new(tiles@.len(), |i: int| tiles@[i] is Mine),
                0 <= y * w + x <= tiles.len(),
                mines@.no_duplicates(),
                forall|c: Coordinates| #[trigger]
                    mines@.contains(c) <==> c.within(w, h) && c.y * w + c.x < y * w + x
                        && tiles[c.y * w + c.x] is Mine,
                mines@.len() == count_true(flags.take(y * w + x)),
            decreases width - x,
        {
            let c = Coordinates { x, y };
            proof {
                lemma_row_major(w, h, x as int, y as int);
            }
            let idx: usize = y as usize * width as usize + x as usize;
            let ghost before = mines@;
            let mined = tiles[idx].is_mine();
            if mined {
                mines.push(c);
            }
            proof {
                broadcast use lemma_seq_contains_after_push;

                assert(flags.take(idx + 1) =~= flags.take(idx as int).push(flags[idx as int]));
                lemma_count_push(flags.take(idx as int), flags[idx as int]);
                assert forall|d: Coordinates| #[trigger]
                    mines@.contains(d) <==> d.within(w, h) && d.y * w + d.x < idx + 1 && tiles[d.y
                        * w + d.x] is Mine by {
                    if d.within(w, h) {
                        lemma_row_major(w, h, d.x as int, d.y as int);
                    }
                    assert(before.contains(d) <==> d.within(w, h) && d.y * w + d.x < idx
                        && tiles[d.y * w + d.x] is Mine);
                }
                if mined {
                    assert(!before.contains(c));
                    assert forall|a: int, b: int|
                        0 <= a < mines@.len() && 0 <= b < mines@.len() && a != b implies mines@[a]
                        != mines@[b] by {
                        if a < before.len() {
                            assert(before.contains(before[a]));
                        }
                        if b < before.len() {
                            assert(before.contains(before[b]));
                        }
                    }
                }
            }
            x = x + 1;
        }
        assert((y + 1) * w == y * w + w) by (nonlinear_arith);
        y = y + 1;
    }
    proof {
        assert(h * w == w * h) by (nonlinear_arith);
        assert(flags.take(tiles@.len() as int) =~= flags);
        assert forall|c: Coordinates| c.within(w, h) implies c.y * w + c.x < h * w by {
            lemma_row_major(w, h, c.x as int, c.y as int);
        }
    }
    mines
}

impl TileMap {
    /// The grid is well formed, at least one of its cells is free of a
    /// mine, and the stored mine count is that of its tiles.
    pub closed spec fn wf(&self) -> bool {
        &&& self@.playable()
        &&& self.mine_count == self@.mine_total()
    }

    /// What a well-formed map gives its users: a playable grid.
    pub proof fn lemma_wf(&self)
        requires
            self.wf(),
        ensures
            self@.wf(),
            self@.playable(),
            self@.mine_total() <= u32::MAX,
    {
    }

    pub fn width(&self) -> (w: u16)
        ensures
            w == self@.width,
    {
        self.width
    }

    pub fn height(&self) -> (h: u16)
        ensures
            h == self@.height,
    {
        self.height
    }

    /// The number of mines on the grid.
    pub fn mine_count(&self) -> (n: u32)
        requires
            self.wf(),
        ensures
            n == self@.mine_total(),
    {
        self.mine_count
    }

    pub fn contains(&self, c: Coordinates) -> (r: bool)
        ensures
            r == self@.contains(c),
    {
        c.in_bounds(self.width, self.height)
    }

    /// The tile at a cell, or `OutOfBounds` for a cell outside the grid.
    pub fn tile(&self, c: Coordinates) -> (r: Result<Tile, BoardError>)
        requires
            self.wf(),
        ensures
            self@.contains(c) ==> r == Ok::<Tile, BoardError>(self@.tile(c)),
            !self@.contains(c) ==> r == Err::<Tile, BoardError>(BoardError::OutOfBounds),
    {
        if c.in_bounds(self.width, self.height) {
            proof {
                lemma_area_fits(self.width as nat, self.height as nat);
                lemma_row_major(self.width as nat, self.height as nat, c.x as int, c.y as int);
            }
            Ok(self.tiles[c.y as usize * self.width as usize + c.x as usize])
        } else {
            Err(BoardError::OutOfBounds)
        }
    }

    /// Builds the grid that has its mines exactly at the given cells.
    ///
    /// Fails with `InvalidConfiguration` unless the list is placeable.
    pub fn with_mines(width: u16, height: u16, mines: &Vec<Coordinates>) -> (r: Result<
        TileMap,
        BoardError,
    >)
        ensures
            r is Ok <==> placeable(width as nat, height as nat, mines@),
            r is Err ==> r->Err_0 == BoardError::InvalidConfiguration,
            r matches Ok(map) ==> {
                &&& map.wf()
                &&& map@.width == width
                &&& map@.height == height
                &&& map@.mine_total() == mines@.len()
                &&& forall|c: Coordinates|
                    map@.contains(c) ==> ((#[trigger] map@.tile(c)) is Mine <==> mines@.contains(c))
            },
    {
        let ghost w = width as nat;
        let ghost h = height as nat;
        if width == 0 || height == 0 {
            return Err(BoardError::InvalidConfiguration);
        }
        proof {
            lemma_area_fits(w, h);
        }
        let area: usize = width as usize * height as usize;
        if mines.len() >= area {
            return Err(BoardError::InvalidConfiguration);
        }
        let mut flags = unmarked(area);
        let mut t: usize = 0;
        proof {
            assert forall|c: Coordinates| c.within(w, h) implies !#[trigger] marked(
                flags@,
                w,
                c,
            ) by {
                lemma_row_major(w, h, c.x as int, c.y as int);
            }
        }
        while t < mines.len()
            invariant
                t <= mines.len(),
                w == width,
                h == height,
                area == w * h,
                w * h <= 0xFFFE_0001,
                flags.len() == area,
                forall|j: int| 0 <= j < t ==> (#[trigger] mines[j]).within(w, h),
                forall|a: int, b: int| 0 <= a < b < t ==> mines[a] != mines[b],
                forall|c: Coordinates|
                    c.within(w, h) ==> (#[trigger] marked(flags@, w, c) <==> mines@.take(
                        t as int,
                    ).contains(c)),
                count_true(flags@) == t,
            decreases mines.len() - t,
        {
            let c = mines[t];
            if !c.in_bounds(width, height) {
                return Err(BoardError::InvalidConfiguration);
            }
            proof {
                lemma_row_major(w, h, c.x as int, c.y as int);
            }
            let idx: usize = c.y as usize * width as usize + c.x as usize;
            if flags[idx] {
                proof {
                    assert(marked(flags@, w, c));
                    let earlier = mines@.take(t as int);
                    let j = choose|j: int| 0 <= j < earlier.len() && earlier[j] == c;
                    assert(mines@[j] == mines@[t as int]);
                }
                return Err(BoardError::InvalidConfiguration);
            }
            let ghost before = flags@;
            flags.set(idx, true);
            proof {
                lemma_count_update(before, idx as int, true);
                assert forall|a: int, b: int| 0 <= a < b < t + 1 implies mines[a] != mines[b] by {
                    if b == t && mines[a] == mines[b] {
                        assert(mines@.take(t as int)[a] == c);
                        assert(mines@.take(t as int).contains(c));
                        assert(marked(before, w, c));
                    }
                }
                assert forall|d: Coordinates| d.within(w, h) implies (#[trigger] marked(
                    flags@,
                    w,
                    d,
                ) <==> mines@.take(t + 1).contains(d)) by {
                    lemma_row_major(w, h, d.x as int, d.y as int);
                    let shorter = mines@.take(t as int);
                    let longer = mines@.take(t + 1);
                    if d == c {
                        assert(longer[t as int] == d);
                    } else {
                        assert(d.y * w + d.x != idx);
                        assert(marked(flags@, w, d) == marked(before, w, d));
                        if shorter.contains(d) {
                            let j = choose|j: int| 0 <= j < shorter.len() && shorter[j] == d;
                            assert(longer[j] == d);
                        }
                        if longer.contains(d) {
                            let j = choose|j: int| 0 <= j < longer.len() && longer[j] == d;
                            assert(shorter[j] == d);
                        }
                    }
                }
            }
            t = t + 1;
        }
        let tiles = lay_tiles(&flags, width, height);
        let map = TileMap { width, height, mine_count: mines.len() as u32, tiles };
        proof {
            assert(mines@.take(t as int) =~= mines@);
            assert(map@.mine_flags() =~= flags@) by {
                assert forall|j: int| 0 <= j < area implies map@.mine_flags()[j] == flags@[j] by {
                    lemma_row_major_inverse(w, h, j);
                    assert(map@.tiles[j] == planned_at(flags@, w, h, j));
                }
            }
            assert forall|c: Coordinates| map@.contains(c) implies #[trigger] map@.tile(c)
                == map@.expected(c) by {
                lemma_row_major(w, h, c.x as int, c.y as int);
                assert(map@.tiles[map@.index(c)] == planned_at(flags@, w, h, map@.index(c)));
            }
            assert forall|c: Coordinates| map@.contains(c) implies ((#[trigger] map@.tile(c)) is Mine
                <==> mines@.contains(c)) by {
                lemma_row_major(w, h, c.x as int, c.y as int);
                assert(map@.mine_flags()[map@.index(c)] == marked(flags@, w, c));
            }
            assert(mines@.no_duplicates());
        }
        Ok(map)
    }

    /// Builds the grid from its tiles, given row by row.
    ///
    /// Fails with `InvalidConfiguration` unless the tiles make up a
    /// playable grid of the given extent.
    pub fn from_tiles(width: u16, height: u16, tiles: &Vec<Tile>) -> (r: Result<
        TileMap,
        BoardError,
    >)
        ensures
            r is Ok <==> (Grid {
                width: width as nat,
                height: height as nat,
                tiles: tiles@,
            }).playable(),
            r is Err ==> r->Err_0 == BoardError::InvalidConfiguration,
            r matches Ok(map) ==> map.wf() && map@ == (Grid {
                width: width as nat,
                height: height as nat,
                tiles: tiles@,
            }),
    {
        let ghost w = width as nat;
        let ghost h = height as nat;
        let ghost given = Grid { width: w, height: h, tiles: tiles@ };
        if width == 0 || height == 0 {
            return Err(BoardError::InvalidConfiguration);
        }
        proof {
            lemma_area_fits(w, h);
        }
        let area: usize = width as usize * height as usize;
        if tiles.len() != area {
            return Err(BoardError::InvalidConfiguration);
        }
        let mines = mines_of(width, height, tiles);
        proof {
            assert(given.mine_flags() =~= Seq::new(tiles@.len(), |i: int| tiles@[i] is Mine));
            assert forall|i: int| 0 <= i < mines@.len() implies (#[trigger] mines@[i]).within(
                w,
                h,
            ) by {
                assert(mines@.contains(mines@[i]));
            }
        }
        let map = match TileMap::with_mines(width, height, &mines) {
            Ok(map) => map,
            Err(error) => {
                return Err(error);
            },
        };
        proof {
            assert(map@.mine_flags() =~= given.mine_flags()) by {
                assert forall|j: int| 0 <= j < area implies map@.mine_flags()[j]
                    == given.mine_flags()[j] by {
                    map@.lemma_cell(j);
                    let c = map@.cell(j);
                    assert(map@.tile(c) is Mine <==> mines@.contains(c));
                }
            }
            assert forall|c: Coordinates| given.contains(c) implies given.expected(c)
                == #[trigger] map@.tile(c) by {}
        }
        let mut i: usize = 0;
        while i < area
            invariant
                i <= area,
                area == tiles.len(),
                area == map.tiles.len(),
                area == w * h,
                w == width,
                h == height,
                map.wf(),
                map@.width == w,
                map@.height == h,
                given == (Grid { width: w, height: h, tiles: tiles@ }),
                forall|c: Coordinates|
                    given.contains(c) ==> given.expected(c) == #[trigger] map@.tile(c),
                forall|j: int| 0 <= j < i ==> map.tiles[j] == tiles[j],
            decreases area - i,
        {
            if map.tiles[i] != tiles[i] {
                proof {
                    map@.lemma_cell(i as int);
                    let c = map@.cell(i as int);
                    given.lemma_cell(i as int);
                    assert(given.cell(i as int) == c);
                    assert(given.expected(c) == map@.tile(c));
                    assert(map@.tile(c) == map.tiles@[i as int]);
                    assert(given.tile(c) == tiles@[i as int]);
                    assert(given.tile(c) != given.expected(c));
                }
                return Err(BoardError::InvalidConfiguration);
            }
            i = i + 1;
        }
        assert(map@.tiles =~= tiles@);
        Ok(map)
    }

    /// The tiles of the grid, row by row.
    pub fn tiles(&self) -> (tiles: Vec<Tile>)
        ensures
            tiles@ == self@.tiles,
    {
        let mut tiles: Vec<Tile> = Vec::new();
        let mut i: usize = 0;
        while i < self.tiles.len()
            invariant
                i <= self.tiles.len(),
                tiles@ == self.tiles@.take(i as int),
            decreases self.tiles.len() - i,
        {
            tiles.push(self.tiles[i]);
            assert(self.tiles@.take(i + 1) =~= self.tiles@.take(i as int).push(self.tiles@[i as int]));
            i = i + 1;
        }
        assert(self.tiles@.take(i as int) =~= self.tiles@);
        tiles
    }

    /// Generates a grid with `mine_count` mines, drawn with the seed `seed`
    /// from the cells outside the three by three block around `safe_zone`,
    /// or from all cells where no safe zone is given.
    ///
    /// The same arguments give the same grid. Fails with
    /// `InvalidConfiguration` where the mines do not fit.
    pub fn generate(
        width: u16,
        height: u16,
        mine_count: u32,
        safe_zone: Option<Coordinates>,
        seed: u64,
    ) -> (r: Result<TileMap, BoardError>)
        ensures
            r is Ok <==> generable(width as nat, height as nat, mine_count as nat, safe_zone),
            r is Err ==> r->Err_0 == BoardError::InvalidConfiguration,
            r matches Ok(map) ==> {
                &&& map.wf()
                &&& map@.width == width
                &&& map@.height == height
                &&& map@.mine_total() == mine_count
                &&& forall|c: Coordinates|
                    map@.contains(c) ==> ((#[trigger] map@.tile(c)) is Mine <==> mine_cells(
                        width as nat,
                        height as nat,
                        mine_count as nat,
                        safe_zone,
                        seed,
                    ).contains(c))
                &&& forall|c: Coordinates|
                    map@.contains(c) && shielded(safe_zone, c) ==> !((#[trigger] map@.tile(
                        c,
                    )) is Mine)
            },
    {
        let ghost w = width as nat;
        let ghost h = height as nat;
        proof {
            lemma_area_fits(w, h);
        }
        let area: usize = width as usize * height as usize;
        if mine_count as usize >= area {
            return Err(BoardError::InvalidConfiguration);
        }
        let cells = eligible_cells(width, height, safe_zone);
        if mine_count as usize > cells.len() {
            return Err(BoardError::InvalidConfiguration);
        }
        let ghost open_cells = cells@;
        let mines = draw_cells(cells, seed, mine_count as usize);
        proof {
            lemma_eligible(w, h, safe_zone);
            lemma_drawn_cells(open_cells, seed, mine_count as nat);
            assert(w >= 1 && h >= 1) by (nonlinear_arith)
                requires
                    mine_count < w * h,
            ;
            assert forall|i: int| 0 <= i < mines@.len() implies (#[trigger] mines@[i]).within(
                w,
                h,
            ) && !shielded(safe_zone, mines@[i]) by {
                assert(mines@.contains(mines@[i]));
                assert(open_cells.contains(mines@[i]));
            }
        }
        match TileMap::with_mines(width, height, &mines) {
            Ok(map) => {
                proof {
                    assert forall|c: Coordinates|
                        map@.contains(c) && shielded(safe_zone, c) implies !((#[trigger] map@.tile(
                        c,
                    )) is Mine) by {
                        if mines@.contains(c) {
                            let i = choose|i: int| 0 <= i < mines@.len() && mines@[i] == c;
                            assert(!shielded(safe_zone, mines@[i]));
                        }
                    }
                }
                Ok(map)
            },
            Err(error) => Err(error),
        }
    }
}

} // verus!
