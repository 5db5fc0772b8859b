use minesweeper::board::Board;
use minesweeper::board_view::Layout;
use minesweeper::coordinates::Coordinates;
use minesweeper::snapshot::Snapshot;
use minesweeper::tile::{BoardError, Tile, TileStatus};
use minesweeper::tile_map::TileMap;
use minesweeper::uncover::UncoverResult;

fn at(x: u16, y: u16) -> Coordinates {
    Coordinates::new(x, y)
}

fn layout() -> Layout {
    Layout { tile_size: 8, padding: 2, origin_x: -12, origin_y: 4 }
}

fn row_with_mine_in_the_middle() -> Snapshot {
    Snapshot {
        width: 3,
        height: 1,
        tiles: vec![Tile::MineNeighbor(1), Tile::Mine, Tile::MineNeighbor(1)],
        statuses: vec![TileStatus::Uncovered, TileStatus::FlaggedBomb, TileStatus::Covered],
        layout: layout(),
    }
}

#[test]
fn saved_round_is_taken_up_as_it_was() {
    let map = TileMap::generate(7, 5, 9, Some(at(3, 2)), 11).unwrap();
    let mut board = Board::new(map, layout()).unwrap();
    board.uncover(at(3, 2)).unwrap();
    board.toggle_flag(at(0, 0)).unwrap();
    let saved = board.save();
    assert_eq!(saved.width, 7);
    assert_eq!(saved.height, 5);
    assert_eq!(saved.tiles.len(), 35);
    assert_eq!(saved.statuses.len(), 35);
    assert_eq!(saved.statuses[0], TileStatus::Flagged);
    assert_eq!(saved.statuses[2 * 7 + 3], TileStatus::Uncovered);
    assert_eq!(saved.layout, layout());
    assert_eq!(saved.tiles, board.tile_map().tiles());
    let restored = Board::restore(&saved).unwrap();
    assert_eq!(restored.save(), saved);
    assert_eq!(restored.covered_count(), board.covered_count());
    assert_eq!(restored.mines_remaining(), board.mines_remaining());
    assert_eq!(restored.flag_count(), 1);
    assert_eq!(restored.is_cleared(), board.is_cleared());
}

#[test]
fn restored_counters_follow_the_statuses() {
    let board = Board::restore(&row_with_mine_in_the_middle()).unwrap();
    assert_eq!(board.covered_count(), 2);
    assert_eq!(board.uncovered_count(), 1);
    assert_eq!(board.mines_remaining(), 1);
    assert_eq!(board.flag_count(), 1);
    assert_eq!(board.remaining_mine_estimate(), 0);
    assert!(!board.is_cleared());
    assert_eq!(board.status_of(at(1, 0)), Ok(TileStatus::FlaggedBomb));
    assert_eq!(board.tile_at(at(1, 0)), Ok(Tile::Mine));
}

#[test]
fn confirmed_flag_stays_under_toggle_and_uncover() {
    let mut board = Board::restore(&row_with_mine_in_the_middle()).unwrap();
    assert_eq!(board.toggle_flag(at(1, 0)), Ok(TileStatus::FlaggedBomb));
    assert_eq!(board.status_of(at(1, 0)), Ok(TileStatus::FlaggedBomb));
    assert_eq!(board.flag_count(), 1);
    assert_eq!(board.uncover(at(1, 0)), Ok(UncoverResult::Uncovered(vec![])));
    assert_eq!(board.status_for_display(at(1, 0)), Ok(TileStatus::FlaggedBomb));
    assert_eq!(board.uncover_adjacent(at(0, 0)), Ok(UncoverResult::Uncovered(vec![])));
    assert_eq!(board.uncover(at(2, 0)), Ok(UncoverResult::Uncovered(vec![at(2, 0)])));
    assert!(board.is_cleared());
}

#[test]
fn snapshot_with_wrong_numbers_is_refused() {
    let refused = Some(BoardError::InvalidConfiguration);
    let mut snapshot = row_with_mine_in_the_middle();
    snapshot.tiles[0] = Tile::Empty;
    assert_eq!(Board::restore(&snapshot).err(), refused);
    let mut snapshot = row_with_mine_in_the_middle();
    snapshot.tiles[2] = Tile::MineNeighbor(2);
    assert_eq!(Board::restore(&snapshot).err(), refused);
    let mut snapshot = row_with_mine_in_the_middle();
    snapshot.tiles[1] = Tile::Empty;
    assert_eq!(Board::restore(&snapshot).err(), refused);
}

#[test]
fn snapshot_with_wrong_extent_or_layout_is_refused() {
    let refused = Some(BoardError::InvalidConfiguration);
    let mut snapshot = row_with_mine_in_the_middle();
    snapshot.width = 2;
    assert_eq!(Board::restore(&snapshot).err(), refused);
    let mut snapshot = row_with_mine_in_the_middle();
    snapshot.height = 0;
    assert_eq!(Board::restore(&snapshot).err(), refused);
    let mut snapshot = row_with_mine_in_the_middle();
    snapshot.statuses.pop();
    assert_eq!(Board::restore(&snapshot).err(), refused);
    let mut snapshot = row_with_mine_in_the_middle();
    snapshot.statuses.push(TileStatus::Covered);
    assert_eq!(Board::restore(&snapshot).err(), refused);
    let mut snapshot = row_with_mine_in_the_middle();
    snapshot.layout.tile_size = 0;
    assert_eq!(Board::restore(&snapshot).err(), refused);
    let mut snapshot = row_with_mine_in_the_middle();
    snapshot.layout.padding = 8;
    assert_eq!(Board::restore(&snapshot).err(), refused);
    let full = Snapshot {
        width: 1,
        height: 1,
        tiles: vec![Tile::Mine],
        statuses: vec![TileStatus::Covered],
        layout: layout(),
    };
    assert_eq!(Board::restore(&full).err(), refused);
}

#[test]
fn grid_is_rebuilt_from_its_tiles() {
    let map = TileMap::with_mines(4, 2, &vec![at(1, 0), at(2, 1)]).unwrap();
    let tiles = map.tiles();
    let again = TileMap::from_tiles(4, 2, &tiles).unwrap();
    assert_eq!(again.tiles(), tiles);
    assert_eq!(again.mine_count(), 2);
    assert_eq!(again.width(), 4);
    assert_eq!(again.height(), 2);
    let refused = Some(BoardError::InvalidConfiguration);
    assert_eq!(TileMap::from_tiles(2, 4, &tiles).err(), refused);
    assert_eq!(TileMap::from_tiles(4, 3, &tiles).err(), refused);
    assert_eq!(TileMap::from_tiles(0, 0, &vec![]).err(), refused);
    assert!(TileMap::from_tiles(2, 2, &vec![Tile::Empty; 4]).is_ok());
}
