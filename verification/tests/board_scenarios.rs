use minesweeper::board::Board;
use minesweeper::board_view::Layout;
use minesweeper::coordinates::Coordinates;
use minesweeper::tile::{BoardError, Tile, TileStatus};
use minesweeper::tile_map::TileMap;
use minesweeper::uncover::UncoverResult;

fn at(x: u16, y: u16) -> Coordinates {
    Coordinates::new(x, y)
}

fn layout() -> Layout {
    Layout { tile_size: 10, padding: 1, origin_x: 0, origin_y: 0 }
}

fn board_with(width: u16, height: u16, mines: &[(u16, u16)]) -> Board {
    let mines: Vec<Coordinates> = mines.iter().map(|&(x, y)| at(x, y)).collect();
    let map = TileMap::with_mines(width, height, &mines).unwrap();
    Board::new(map, layout()).unwrap()
}

fn statuses(board: &Board) -> Vec<TileStatus> {
    let mut all = Vec::new();
    for y in 0..board.height() {
        for x in 0..board.width() {
            all.push(board.status_of(at(x, y)).unwrap());
        }
    }
    all
}

fn uncovered_cells(result: UncoverResult) -> Vec<Coordinates> {
    match result {
        UncoverResult::Uncovered(cells) => cells,
        UncoverResult::Exploded(mine) => panic!("a mine went off at {:?}", mine),
    }
}

fn sorted(mut cells: Vec<Coordinates>) -> Vec<(u16, u16)> {
    cells.sort_by_key(|c| (c.y, c.x));
    cells.iter().map(|c| (c.x, c.y)).collect()
}

#[test]
fn trigger_corner_uncovers_all_safe_tiles_and_clears_board() {
    let mut board = board_with(3, 3, &[(2, 2)]);
    assert_eq!(board.tile_at(at(0, 0)), Ok(Tile::Empty));
    assert_eq!(board.tile_at(at(1, 1)), Ok(Tile::MineNeighbor(1)));
    assert_eq!(board.tile_at(at(2, 2)), Ok(Tile::Mine));
    assert!(!board.is_cleared());
    let cells = uncovered_cells(board.uncover(at(0, 0)).unwrap());
    assert_eq!(
        sorted(cells),
        vec![(0, 0), (1, 0), (2, 0), (0, 1), (1, 1), (2, 1), (0, 2), (1, 2)]
    );
    assert!(board.is_cleared());
    assert_eq!(board.status_of(at(2, 2)), Ok(TileStatus::Covered));
    assert_eq!(board.covered_count(), 1);
    assert_eq!(board.uncovered_count(), 8);
    assert_eq!(board.mines_remaining(), 1);
}

#[test]
fn trigger_mine_explodes_and_changes_nothing_else() {
    let mut board = board_with(3, 3, &[(2, 2)]);
    let result = board.uncover(at(2, 2)).unwrap();
    assert_eq!(result, UncoverResult::Exploded(at(2, 2)));
    for y in 0..3u16 {
        for x in 0..3u16 {
            let expected =
                if x == 2 && y == 2 { TileStatus::Uncovered } else { TileStatus::Covered };
            assert_eq!(board.status_of(at(x, y)), Ok(expected));
        }
    }
    assert!(!board.is_cleared());
    assert_eq!(board.covered_count(), 8);
    assert_eq!(board.mines_remaining(), 0);
}

#[test]
fn new_board_is_covered_everywhere() {
    let board = board_with(4, 3, &[(0, 0), (3, 2)]);
    assert!(statuses(&board).iter().all(|s| *s == TileStatus::Covered));
    assert_eq!(board.covered_count(), 12);
    assert_eq!(board.uncovered_count(), 0);
    assert_eq!(board.mines_remaining(), 2);
    assert_eq!(board.flag_count(), 0);
    assert_eq!(board.remaining_mine_estimate(), 2);
    assert_eq!(board.width(), 4);
    assert_eq!(board.height(), 3);
    assert_eq!(board.layout(), layout());
    assert_eq!(board.tile_map().mine_count(), 2);
}

#[test]
fn invalid_layout_is_refused() {
    let map = TileMap::with_mines(2, 2, &vec![at(0, 0)]).unwrap();
    let no_size = Layout { tile_size: 0, padding: 0, origin_x: 0, origin_y: 0 };
    assert_eq!(Board::new(map, no_size).err(), Some(BoardError::InvalidConfiguration));
    let map = TileMap::with_mines(2, 2, &vec![at(0, 0)]).unwrap();
    let all_padding = Layout { tile_size: 4, padding: 4, origin_x: 0, origin_y: 0 };
    assert_eq!(Board::new(map, all_padding).err(), Some(BoardError::InvalidConfiguration));
}

#[test]
fn uncover_twice_reports_nothing_the_second_time() {
    let mut board = board_with(3, 3, &[(2, 2)]);
    let first = uncovered_cells(board.uncover(at(1, 1)).unwrap());
    assert_eq!(first, vec![at(1, 1)]);
    let before = statuses(&board);
    let second = board.uncover(at(1, 1)).unwrap();
    assert_eq!(second, UncoverResult::Uncovered(vec![]));
    assert_eq!(statuses(&board), before);
}

#[test]
fn uncover_of_numbered_tile_uncovers_it_alone() {
    let mut board = board_with(3, 3, &[(2, 2)]);
    let cells = uncovered_cells(board.uncover(at(2, 1)).unwrap());
    assert_eq!(cells, vec![at(2, 1)]);
    assert_eq!(board.covered_count(), 8);
    assert!(!board.is_cleared());
}

#[test]
fn flood_fill_stops_at_the_numbered_border() {
    let mut board = board_with(5, 5, &[(2, 0), (2, 1), (2, 2), (2, 3), (2, 4)]);
    assert_eq!(board.tile_at(at(0, 2)), Ok(Tile::Empty));
    assert_eq!(board.tile_at(at(1, 0)), Ok(Tile::MineNeighbor(2)));
    assert_eq!(board.tile_at(at(1, 2)), Ok(Tile::MineNeighbor(3)));
    let cells = uncovered_cells(board.uncover(at(0, 0)).unwrap());
    assert_eq!(
        sorted(cells),
        vec![(0, 0), (1, 0), (0, 1), (1, 1), (0, 2), (1, 2), (0, 3), (1, 3), (0, 4), (1, 4)]
    );
    for y in 0..5u16 {
        for x in 0..5u16 {
            let expected = if x < 2 { TileStatus::Uncovered } else { TileStatus::Covered };
            assert_eq!(board.status_of(at(x, y)), Ok(expected));
        }
    }
    assert_eq!(board.covered_count(), 15);
    assert!(!board.is_cleared());
}

#[test]
fn flood_fill_reports_each_cell_once() {
    let mut board = board_with(6, 6, &[(5, 5)]);
    let cells = uncovered_cells(board.uncover(at(0, 0)).unwrap());
    assert_eq!(cells.len(), 35);
    let mut seen = sorted(cells);
    seen.dedup();
    assert_eq!(seen.len(), 35);
    assert!(board.is_cleared());
}

#[test]
fn flood_fill_does_not_pass_a_flag() {
    let mut board = board_with(5, 1, &[(4, 0)]);
    assert_eq!(board.toggle_flag(at(1, 0)), Ok(TileStatus::Flagged));
    let cells = uncovered_cells(board.uncover(at(0, 0)).unwrap());
    assert_eq!(cells, vec![at(0, 0)]);
    assert_eq!(board.status_of(at(1, 0)), Ok(TileStatus::Flagged));
    assert_eq!(board.status_of(at(2, 0)), Ok(TileStatus::Covered));
}

#[test]
fn uncover_of_flagged_tile_is_a_no_op() {
    let mut board = board_with(3, 3, &[(2, 2)]);
    assert_eq!(board.toggle_flag(at(0, 0)), Ok(TileStatus::Flagged));
    let before = statuses(&board);
    assert_eq!(board.uncover(at(0, 0)), Ok(UncoverResult::Uncovered(vec![])));
    assert_eq!(statuses(&board), before);
    assert_eq!(board.toggle_flag(at(2, 2)), Ok(TileStatus::Flagged));
    assert_eq!(board.uncover(at(2, 2)), Ok(UncoverResult::Uncovered(vec![])));
    assert_eq!(board.status_of(at(2, 2)), Ok(TileStatus::Flagged));
}

#[test]
fn toggle_flag_on_uncovered_tile_is_invalid() {
    let mut board = board_with(3, 3, &[(2, 2)]);
    board.uncover(at(1, 1)).unwrap();
    let before = statuses(&board);
    assert_eq!(board.toggle_flag(at(1, 1)), Err(BoardError::InvalidOperation));
    assert_eq!(statuses(&board), before);
    assert_eq!(board.flag_count(), 0);
}

#[test]
fn toggle_flag_flips_between_covered_and_flagged() {
    let mut board = board_with(3, 3, &[(2, 2)]);
    assert_eq!(board.toggle_flag(at(0, 1)), Ok(TileStatus::Flagged));
    assert_eq!(board.status_of(at(0, 1)), Ok(TileStatus::Flagged));
    assert_eq!(board.flag_count(), 1);
    assert_eq!(board.covered_count(), 9);
    assert_eq!(board.remaining_mine_estimate(), 0);
    assert_eq!(board.toggle_flag(at(1, 1)), Ok(TileStatus::Flagged));
    assert_eq!(board.remaining_mine_estimate(), -1);
    assert_eq!(board.toggle_flag(at(0, 1)), Ok(TileStatus::Covered));
    assert_eq!(board.status_of(at(0, 1)), Ok(TileStatus::Covered));
    assert_eq!(board.flag_count(), 1);
    assert_eq!(board.covered_count(), 9);
}

#[test]
fn out_of_bounds_is_reported() {
    let mut board = board_with(3, 2, &[(2, 1)]);
    assert_eq!(board.status_of(at(3, 0)), Err(BoardError::OutOfBounds));
    assert_eq!(board.status_of(at(0, 2)), Err(BoardError::OutOfBounds));
    assert_eq!(board.tile_at(at(3, 1)), Err(BoardError::OutOfBounds));
    assert_eq!(board.uncover(at(3, 0)), Err(BoardError::OutOfBounds));
    assert_eq!(board.toggle_flag(at(0, 2)), Err(BoardError::OutOfBounds));
    assert_eq!(board.uncover_adjacent(at(7, 7)), Err(BoardError::OutOfBounds));
    assert!(!board.contains(at(3, 0)));
    assert!(board.contains(at(2, 1)));
    assert!(statuses(&board).iter().all(|s| *s == TileStatus::Covered));
}

#[test]
fn cleared_does_not_depend_on_flags_on_mines() {
    let mut flagged = board_with(3, 3, &[(2, 2)]);
    flagged.toggle_flag(at(2, 2)).unwrap();
    flagged.uncover(at(0, 0)).unwrap();
    assert!(flagged.is_cleared());
    let mut plain = board_with(3, 3, &[(2, 2)]);
    plain.uncover(at(0, 0)).unwrap();
    assert!(plain.is_cleared());
}

#[test]
fn cleared_only_when_every_safe_tile_is_uncovered() {
    let mut board = board_with(3, 1, &[(1, 0)]);
    assert!(!board.is_cleared());
    board.uncover(at(0, 0)).unwrap();
    assert!(!board.is_cleared());
    board.uncover(at(2, 0)).unwrap();
    assert!(board.is_cleared());
}

#[test]
fn adjacent_uncover_opens_the_neighbours_when_flags_match() {
    let mut board = board_with(3, 3, &[(0, 0), (2, 0)]);
    assert_eq!(board.tile_at(at(1, 1)), Ok(Tile::MineNeighbor(2)));
    board.uncover(at(1, 1)).unwrap();
    board.toggle_flag(at(0, 0)).unwrap();
    board.toggle_flag(at(2, 0)).unwrap();
    let cells = uncovered_cells(board.uncover_adjacent(at(1, 1)).unwrap());
    assert_eq!(cells, vec![at(1, 0), at(0, 1), at(2, 1), at(0, 2), at(1, 2), at(2, 2)]);
    assert!(board.is_cleared());
    assert_eq!(board.status_of(at(0, 0)), Ok(TileStatus::Flagged));
    assert_eq!(board.status_of(at(2, 0)), Ok(TileStatus::Flagged));
}

#[test]
fn adjacent_uncover_does_nothing_when_flags_do_not_match() {
    let mut board = board_with(3, 3, &[(0, 0), (2, 0)]);
    board.uncover(at(1, 1)).unwrap();
    board.toggle_flag(at(0, 0)).unwrap();
    let before = statuses(&board);
    assert_eq!(board.uncover_adjacent(at(1, 1)), Ok(UncoverResult::Uncovered(vec![])));
    assert_eq!(statuses(&board), before);
}

#[test]
fn adjacent_uncover_sets_off_a_mine_behind_a_wrong_flag() {
    let mut board = board_with(3, 3, &[(0, 0), (2, 0)]);
    board.uncover(at(1, 1)).unwrap();
    board.toggle_flag(at(0, 0)).unwrap();
    board.toggle_flag(at(1, 0)).unwrap();
    assert_eq!(board.uncover_adjacent(at(1, 1)), Ok(UncoverResult::Exploded(at(2, 0))));
    assert_eq!(board.status_of(at(2, 0)), Ok(TileStatus::Uncovered));
    assert_eq!(board.status_of(at(0, 1)), Ok(TileStatus::Covered));
    assert_eq!(board.mines_remaining(), 1);
}

#[test]
fn adjacent_uncover_needs_an_uncovered_numbered_tile() {
    let mut board = board_with(3, 3, &[(2, 2)]);
    assert_eq!(board.uncover_adjacent(at(1, 1)), Err(BoardError::InvalidOperation));
    board.uncover(at(0, 0)).unwrap();
    assert_eq!(board.status_of(at(0, 0)), Ok(TileStatus::Uncovered));
    assert_eq!(board.uncover_adjacent(at(0, 0)), Err(BoardError::InvalidOperation));
    assert_eq!(board.uncover_adjacent(at(2, 2)), Err(BoardError::InvalidOperation));
}

#[test]
fn screen_position_maps_to_the_tile_under_it() {
    let mines = vec![at(2, 2)];
    let map = TileMap::with_mines(3, 3, &mines).unwrap();
    let layout = Layout { tile_size: 10, padding: 2, origin_x: -15, origin_y: -15 };
    let board = Board::new(map, layout).unwrap();
    assert_eq!(board.screen_to_coordinate(-15, -15), Some(at(0, 0)));
    assert_eq!(board.screen_to_coordinate(-6, -6), Some(at(0, 0)));
    assert_eq!(board.screen_to_coordinate(-5, -6), Some(at(1, 0)));
    assert_eq!(board.screen_to_coordinate(0, 0), Some(at(1, 1)));
    assert_eq!(board.screen_to_coordinate(14, 14), Some(at(2, 2)));
    assert_eq!(board.screen_to_coordinate(15, 0), None);
    assert_eq!(board.screen_to_coordinate(0, 15), None);
    assert_eq!(board.screen_to_coordinate(-16, 0), None);
    assert_eq!(board.screen_to_coordinate(0, -16), None);
    assert_eq!(board.screen_to_coordinate(i32::MAX, i32::MIN), None);
}

#[test]
fn restart_covers_everything_again() {
    let mut board = board_with(3, 3, &[(2, 2)]);
    board.toggle_flag(at(2, 2)).unwrap();
    board.uncover(at(0, 0)).unwrap();
    board.restart();
    assert!(statuses(&board).iter().all(|s| *s == TileStatus::Covered));
    assert_eq!(board.covered_count(), 9);
    assert_eq!(board.flag_count(), 0);
    assert_eq!(board.mines_remaining(), 1);
    assert_eq!(board.tile_at(at(2, 2)), Ok(Tile::Mine));
    assert!(!board.is_cleared());
}

#[test]
fn neighbours_are_clipped_at_the_edges() {
    let corner: Vec<(u16, u16)> = at(0, 0).neighbors(3, 3).iter().map(|c| (c.x, c.y)).collect();
    assert_eq!(corner, vec![(1, 0), (0, 1), (1, 1)]);
    let middle: Vec<(u16, u16)> = at(1, 1).neighbors(3, 3).iter().map(|c| (c.x, c.y)).collect();
    assert_eq!(
        middle,
        vec![(0, 0), (1, 0), (2, 0), (0, 1), (2, 1), (0, 2), (1, 2), (2, 2)]
    );
    assert_eq!(at(0, 0).neighbors(1, 1), vec![]);
    assert_eq!(at(65535, 65535).neighbors(65535, 65535).len(), 1);
    assert!(at(1, 1).is_adjacent(&at(2, 2)));
    assert!(!at(1, 1).is_adjacent(&at(1, 1)));
    assert!(!at(1, 1).is_adjacent(&at(3, 1)));
    assert!(at(2, 1).in_bounds(3, 2));
    assert!(!at(3, 1).in_bounds(3, 2));
}

#[test]
fn tile_and_status_queries() {
    assert!(Tile::Mine.is_mine());
    assert!(!Tile::Empty.is_mine());
    assert!(Tile::Empty.is_empty());
    assert!(!Tile::MineNeighbor(3).is_empty());
    assert_eq!(Tile::MineNeighbor(3).mine_count(), 3);
    assert_eq!(Tile::Mine.mine_count(), 0);
    assert!(TileStatus::Flagged.is_flagged());
    assert!(TileStatus::FlaggedBomb.is_flagged());
    assert!(!TileStatus::Covered.is_flagged());
    assert!(TileStatus::Uncovered.is_uncovered());
    assert!(TileStatus::Covered.is_covered());
    assert!(!TileStatus::Flagged.is_covered());
}

#[test]
fn flag_on_a_mine_is_shown_as_confirmed() {
    let mut board = board_with(3, 3, &[(2, 2), (0, 2)]);
    board.toggle_flag(at(2, 2)).unwrap();
    board.toggle_flag(at(1, 1)).unwrap();
    assert_eq!(board.status_for_display(at(2, 2)), Ok(TileStatus::FlaggedBomb));
    assert_eq!(board.status_for_display(at(1, 1)), Ok(TileStatus::Flagged));
    assert_eq!(board.status_for_display(at(0, 2)), Ok(TileStatus::Covered));
    assert_eq!(board.status_for_display(at(3, 3)), Err(BoardError::OutOfBounds));
    assert_eq!(board.status_of(at(2, 2)), Ok(TileStatus::Flagged));
    board.uncover(at(0, 0)).unwrap();
    assert_eq!(board.status_for_display(at(0, 0)), Ok(TileStatus::Uncovered));
}

#[test]
fn flood_fill_meets_an_uncovered_tile_and_goes_no_further() {
    let mut board = board_with(5, 3, &[]);
    board.toggle_flag(at(1, 1)).unwrap();
    board.toggle_flag(at(3, 1)).unwrap();
    let cells = uncovered_cells(board.uncover(at(0, 0)).unwrap());
    assert_eq!(cells.len(), 13);
    assert!(board.is_cleared() == false);
    board.toggle_flag(at(1, 1)).unwrap();
    board.toggle_flag(at(3, 1)).unwrap();
    let cells = uncovered_cells(board.uncover(at(1, 1)).unwrap());
    assert_eq!(cells, vec![at(1, 1)]);
    assert_eq!(board.status_of(at(3, 1)), Ok(TileStatus::Covered));
    let cells = uncovered_cells(board.uncover(at(3, 1)).unwrap());
    assert_eq!(cells, vec![at(3, 1)]);
    assert!(board.is_cleared());
}
