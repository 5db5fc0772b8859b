use minesweeper::board::Board;
use minesweeper::coordinates::Coordinates;
use minesweeper::options::{setup_board, BoardOptions};
use minesweeper::placement::eligible_cells;
use minesweeper::random::{draw_cells, Random};
use minesweeper::tile::{BoardError, Tile, TileStatus};
use minesweeper::tile_map::TileMap;

fn at(x: u16, y: u16) -> Coordinates {
    Coordinates::new(x, y)
}

fn tiles(map: &TileMap) -> Vec<Tile> {
    let mut all = Vec::new();
    for y in 0..map.height() {
        for x in 0..map.width() {
            all.push(map.tile(at(x, y)).unwrap());
        }
    }
    all
}

fn mines_around(map: &TileMap, c: Coordinates) -> u8 {
    let mut count = 0;
    for dy in -1i32..=1 {
        for dx in -1i32..=1 {
            let x = c.x as i32 + dx;
            let y = c.y as i32 + dy;
            if (dx, dy) != (0, 0)
                && x >= 0
                && y >= 0
                && x < map.width() as i32
                && y < map.height() as i32
                && map.tile(at(x as u16, y as u16)) == Ok(Tile::Mine)
            {
                count += 1;
            }
        }
    }
    count
}

fn check_grid(map: &TileMap, mine_count: usize) {
    let all = tiles(map);
    assert_eq!(all.len(), map.width() as usize * map.height() as usize);
    assert_eq!(all.iter().filter(|t| **t == Tile::Mine).count(), mine_count);
    assert_eq!(map.mine_count() as usize, mine_count);
    for y in 0..map.height() {
        for x in 0..map.width() {
            let around = mines_around(map, at(x, y));
            match map.tile(at(x, y)).unwrap() {
                Tile::Mine => {}
                Tile::Empty => assert_eq!(around, 0),
                Tile::MineNeighbor(n) => {
                    assert!(n >= 1 && n <= 8);
                    assert_eq!(n, around);
                }
            }
        }
    }
}

#[test]
fn generated_grid_has_the_mines_and_exact_numbers() {
    for seed in 0..20u64 {
        let map = TileMap::generate(9, 7, 12, None, seed).unwrap();
        assert_eq!(map.width(), 9);
        assert_eq!(map.height(), 7);
        check_grid(&map, 12);
    }
}

#[test]
fn generation_is_reproducible_under_the_same_seed() {
    let first = TileMap::generate(16, 16, 40, Some(at(3, 3)), 2024).unwrap();
    let second = TileMap::generate(16, 16, 40, Some(at(3, 3)), 2024).unwrap();
    assert_eq!(tiles(&first), tiles(&second));
    let other = TileMap::generate(16, 16, 40, Some(at(3, 3)), 2025).unwrap();
    assert_ne!(tiles(&first), tiles(&other));
}

#[test]
fn generated_mines_are_those_that_the_seed_draws() {
    let map = TileMap::generate(3, 3, 2, None, 7).unwrap();
    assert_eq!(
        tiles(&map),
        vec![
            Tile::Empty,
            Tile::Empty,
            Tile::Empty,
            Tile::MineNeighbor(1),
            Tile::MineNeighbor(2),
            Tile::MineNeighbor(2),
            Tile::MineNeighbor(1),
            Tile::Mine,
            Tile::Mine,
        ]
    );
}

#[test]
fn safe_start_keeps_the_block_around_the_first_click_free() {
    for seed in 0..20u64 {
        let map = TileMap::generate(8, 8, 55, Some(at(4, 4)), seed).unwrap();
        check_grid(&map, 55);
        for y in 3..=5u16 {
            for x in 3..=5u16 {
                assert_ne!(map.tile(at(x, y)), Ok(Tile::Mine));
            }
        }
        assert_eq!(map.tile(at(4, 4)), Ok(Tile::Empty));
    }
}

#[test]
fn safe_start_in_a_corner_fills_every_other_cell() {
    let map = TileMap::generate(4, 4, 12, Some(at(0, 0)), 1).unwrap();
    check_grid(&map, 12);
    for y in 0..4u16 {
        for x in 0..4u16 {
            let expected_mine = x > 1 || y > 1;
            assert_eq!(map.tile(at(x, y)) == Ok(Tile::Mine), expected_mine);
        }
    }
    assert_eq!(map.tile(at(0, 0)), Ok(Tile::Empty));
    assert_eq!(map.tile(at(1, 1)), Ok(Tile::MineNeighbor(5)));
}

#[test]
fn generation_refuses_mines_that_do_not_fit() {
    let refused = Some(BoardError::InvalidConfiguration);
    assert_eq!(TileMap::generate(3, 3, 9, None, 0).err(), refused);
    assert_eq!(TileMap::generate(3, 3, 10, None, 0).err(), refused);
    assert!(TileMap::generate(3, 3, 8, None, 0).is_ok());
    assert_eq!(TileMap::generate(0, 3, 0, None, 0).err(), refused);
    assert_eq!(TileMap::generate(3, 0, 0, None, 0).err(), refused);
    assert_eq!(TileMap::generate(4, 4, 13, Some(at(0, 0)), 0).err(), refused);
    assert!(TileMap::generate(4, 4, 12, Some(at(0, 0)), 0).is_ok());
    assert_eq!(TileMap::generate(4, 4, 8, Some(at(1, 1)), 0).err(), refused);
    assert!(TileMap::generate(4, 4, 7, Some(at(1, 1)), 0).is_ok());
    assert_eq!(TileMap::generate(4, 4, 11, Some(at(3, 1)), 0).err(), refused);
    assert!(TileMap::generate(4, 4, 10, Some(at(3, 1)), 0).is_ok());
    assert_eq!(TileMap::generate(3, 3, 1, Some(at(1, 1)), 0).err(), refused);
    assert!(TileMap::generate(3, 3, 0, Some(at(1, 1)), 0).is_ok());
}

#[test]
fn safe_zone_outside_the_grid_shields_what_it_touches() {
    assert!(TileMap::generate(3, 3, 8, Some(at(10, 10)), 0).is_ok());
    let map = TileMap::generate(3, 3, 6, Some(at(3, 1)), 5).unwrap();
    check_grid(&map, 6);
    for y in 0..3u16 {
        assert_ne!(map.tile(at(2, y)), Ok(Tile::Mine));
    }
    assert_eq!(
        TileMap::generate(3, 3, 7, Some(at(3, 1)), 5).err(),
        Some(BoardError::InvalidConfiguration)
    );
}

#[test]
fn grid_without_mines_is_empty_everywhere() {
    let map = TileMap::generate(5, 4, 0, None, 3).unwrap();
    assert!(tiles(&map).iter().all(|t| *t == Tile::Empty));
    assert_eq!(map.mine_count(), 0);
}

#[test]
fn explicit_mines_give_exact_numbers() {
    let mines = vec![at(0, 0), at(1, 0), at(2, 0), at(0, 1), at(2, 1), at(0, 2), at(1, 2), at(2, 2)];
    let map = TileMap::with_mines(3, 3, &mines).unwrap();
    assert_eq!(map.tile(at(1, 1)), Ok(Tile::MineNeighbor(8)));
    assert_eq!(map.mine_count(), 8);
    let map = TileMap::with_mines(4, 2, &vec![at(1, 0), at(2, 1)]).unwrap();
    assert_eq!(
        tiles(&map),
        vec![
            Tile::MineNeighbor(1),
            Tile::Mine,
            Tile::MineNeighbor(2),
            Tile::MineNeighbor(1),
            Tile::MineNeighbor(1),
            Tile::MineNeighbor(2),
            Tile::Mine,
            Tile::MineNeighbor(1),
        ]
    );
    assert_eq!(map.tile(at(4, 0)), Err(BoardError::OutOfBounds));
    assert_eq!(map.tile(at(0, 2)), Err(BoardError::OutOfBounds));
    assert!(map.contains(at(3, 1)));
    assert!(!map.contains(at(3, 2)));
}

#[test]
fn explicit_mines_are_checked() {
    let refused = Some(BoardError::InvalidConfiguration);
    assert_eq!(TileMap::with_mines(2, 2, &vec![at(2, 0)]).err(), refused);
    assert_eq!(TileMap::with_mines(2, 2, &vec![at(0, 0), at(0, 0)]).err(), refused);
    assert_eq!(
        TileMap::with_mines(2, 2, &vec![at(0, 0), at(1, 0), at(0, 1), at(1, 1)]).err(),
        refused
    );
    assert_eq!(TileMap::with_mines(0, 2, &vec![]).err(), refused);
    assert_eq!(TileMap::with_mines(2, 0, &vec![]).err(), refused);
    assert!(TileMap::with_mines(2, 2, &vec![at(0, 0), at(1, 0), at(0, 1)]).is_ok());
    assert!(TileMap::with_mines(1, 1, &vec![]).is_ok());
}

#[test]
fn generator_follows_its_recurrence() {
    let mut random = Random::new(0);
    assert_eq!(random.below(10), 4);
    assert_eq!(random.below(10), 9);
    assert_eq!(random.below(9), 5);
    let mut random = Random::new(42);
    assert_eq!(random.below(100), 69);
    let mut random = Random::new(42);
    assert_eq!(random.below(1), 0);
}

#[test]
fn draw_takes_distinct_cells() {
    let cells = eligible_cells(3, 3, None);
    assert_eq!(cells.len(), 9);
    assert_eq!(cells[0], at(0, 0));
    assert_eq!(cells[5], at(2, 1));
    assert_eq!(draw_cells(cells, 7, 2), vec![at(1, 2), at(2, 2)]);
    let cells = eligible_cells(4, 4, Some(at(0, 0)));
    assert_eq!(cells.len(), 12);
    let drawn = draw_cells(cells, 1, 12);
    assert_eq!(drawn[0], at(0, 2));
    assert_eq!(drawn[1], at(3, 0));
    assert_eq!(drawn[11], at(3, 3));
    let all = eligible_cells(5, 5, None);
    let mut drawn: Vec<(u16, u16)> = draw_cells(all, 99, 25).iter().map(|c| (c.x, c.y)).collect();
    drawn.sort();
    drawn.dedup();
    assert_eq!(drawn.len(), 25);
    assert_eq!(draw_cells(eligible_cells(2, 2, None), 5, 0), vec![]);
}

#[test]
fn eligible_cells_leave_out_the_clipped_block() {
    assert_eq!(eligible_cells(5, 5, Some(at(2, 2))).len(), 16);
    assert_eq!(eligible_cells(5, 5, Some(at(0, 2))).len(), 19);
    assert_eq!(eligible_cells(5, 5, Some(at(4, 4))).len(), 21);
    assert_eq!(eligible_cells(5, 5, Some(at(5, 4))).len(), 23);
    assert_eq!(eligible_cells(5, 5, Some(at(9, 9))).len(), 25);
    assert_eq!(eligible_cells(1, 1, Some(at(0, 0))).len(), 0);
    assert_eq!(eligible_cells(2, 3, Some(at(0, 0))), vec![at(0, 2), at(1, 2)]);
}

#[test]
fn shipped_options_are_twenty_by_twenty_with_safe_start() {
    let options = setup_board();
    assert_eq!(options.map_size, (20, 20));
    assert_eq!(options.bomb_count, 100);
    assert_eq!(options.layout.padding, 1);
    assert!(options.safe_start);
    let standard = BoardOptions::default();
    assert_eq!(standard.map_size, (15, 15));
    assert_eq!(standard.bomb_count, 30);
    assert!(!standard.safe_start);
    assert_eq!(options.layout.tile_size, standard.layout.tile_size);
}

#[test]
fn board_from_options_honours_safe_start() {
    let options = setup_board();
    for seed in 0..10u64 {
        let board = Board::generate(&options, Some(at(10, 10)), seed).unwrap();
        assert_eq!(board.width(), 20);
        assert_eq!(board.height(), 20);
        assert_eq!(board.mines_remaining(), 100);
        assert_eq!(board.covered_count(), 400);
        assert_eq!(board.tile_at(at(10, 10)), Ok(Tile::Empty));
        assert_eq!(board.status_of(at(10, 10)), Ok(TileStatus::Covered));
        check_grid(board.tile_map(), 100);
    }
}

#[test]
fn board_from_options_without_safe_start_ignores_the_click() {
    let mut options = BoardOptions::default();
    options.map_size = (3, 3);
    options.bomb_count = 8;
    assert!(Board::generate(&options, Some(at(1, 1)), 0).is_ok());
    options.safe_start = true;
    assert_eq!(
        Board::generate(&options, Some(at(1, 1)), 0).err(),
        Some(BoardError::InvalidConfiguration)
    );
    assert!(Board::generate(&options, None, 0).is_ok());
    options.layout.tile_size = 0;
    assert_eq!(
        Board::generate(&options, None, 0).err(),
        Some(BoardError::InvalidConfiguration)
    );
}
