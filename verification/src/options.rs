//! The configuration of a round.

use crate::board::Board;
use crate::board_view::Layout;
use crate::coordinates::Coordinates;
use crate::placement::{generable, shielded};
use crate::tile::BoardError;
use crate::tile_map::{mine_cells, TileMap};
use vstd::prelude::*;

verus! {

/// What a round is generated from.
#[derive(Clone, Copy, Debug, PartialEq, Eq)]
pub struct BoardOptions {
    /// Width and height of the grid, in tiles.
    pub map_size: (u16, u16),
    /// The number of mines.
    pub bomb_count: u32,
    /// How the grid is laid out on the screen.
    pub layout: Layout,
    /// Whether the tiles around the first click are kept free of mines.
    pub safe_start: bool,
}

impl BoardOptions {
    /// The options of a small round: 15 by 15 tiles and 30 mines.
    pub open spec fn standard() -> BoardOptions {
        BoardOptions {
            map_size: (15, 15),
            bomb_count: 30,
            layout: Layout { tile_size: 40, padding: 0, origin_x: 0, origin_y: 0 },
            safe_start: false,
        }
    }

    /// The cell around which no mine is placed: the first click where a safe
    /// start is asked for.
    pub open spec fn safe_zone(self, first_click: Option<Coordinates>) -> Option<Coordinates> {
        if self.safe_start {
            first_click
        } else {
            None
        }
    }

    /// A round can be generated from the options.
    pub open spec fn valid(self, first_click: Option<Coordinates>) -> bool {
        &&& self.layout.valid()
        &&& generable(
            self.map_size.0 as nat,
            self.map_size.1 as nat,
            self.bomb_count as nat,
            self.safe_zone(first_click),
        )
    }
}

impl Default for BoardOptions {
    fn default() -> (options: BoardOptions)
        ensures
            options == BoardOptions::standard(),
    {
        BoardOptions {
            map_size: (15, 15),
            bomb_count: 30,
            layout: Layout { tile_size: 40, padding: 0, origin_x: 0, origin_y: 0 },
            safe_start: false,
        }
    }
}

/// The options of the game as it is shipped: 20 by 20 tiles, 100 mines,
/// one unit of padding and a safe start.
pub fn setup_board() -> (options: BoardOptions)
    ensures
        options == (BoardOptions {
            map_size: (20, 20),
            bomb_count: 100,
            layout: Layout { padding: 1, ..BoardOptions::standard().layout },
            safe_start: true,
            ..BoardOptions::standard()
        }),
{
    let standard = BoardOptions::default();
    BoardOptions {
        map_size: (20, 20),
        bomb_count: 100,
        layout: Layout {
            tile_size: standard.layout.tile_size,
            padding: 1,
            origin_x: standard.layout.origin_x,
            origin_y: standard.layout.origin_y,
        },
        safe_start: true,
    }
}

impl Board {
    /// Generates the board of a new round with the seed `seed`.
    ///
    /// Where the options ask for a safe start, no mine is placed on
    /// `first_click` or next to it. Fails with `InvalidConfiguration` where
    /// the layout is not valid or the mines do not fit.
    pub fn generate(options: &BoardOptions, first_click: Option<Coordinates>, seed: u64) -> (r:
        Result<Board, BoardError>)
        ensures
            r is Ok <==> options.valid(first_click),
            r is Err ==> r->Err_0 == BoardError::InvalidConfiguration,
            r matches Ok(board) ==> {
                &&& board.wf()
                &&& board@.layout == options.layout
                &&& board@.grid.width == options.map_size.0
                &&& board@.grid.height == options.map_size.1
                &&& board@.grid.mine_total() == options.bomb_count
                &&& board@.fresh()
                &&& forall|c: Coordinates|
                    board@.contains(c) ==> ((#[trigger] board@.tile(c)) is Mine <==> mine_cells(
                        options.map_size.0 as nat,
                        options.map_size.1 as nat,
                        options.bomb_count as nat,
                        options.safe_zone(first_click),
                        seed,
                    ).contains(c))
                &&& forall|c: Coordinates|
                    board@.contains(c) && shielded(options.safe_zone(first_click), c) ==> !((
                    #[trigger] board@.tile(c)) is Mine)
            },
    {
        let safe = if options.safe_start {
            first_click
        } else {
            None
        };
        let map = match TileMap::generate(
            options.map_size.0,
            options.map_size.1,
            options.bomb_count,
            safe,
            seed,
        ) {
            Ok(map) => map,
            Err(error) => {
                return Err(error);
            },
        };
        Board::new(map, options.layout)
    }
}

} // verus!
