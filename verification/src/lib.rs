//! A mine-sweeping game: the board engine with its contracts, and the
//! decisions of the game around it.
//!
//! The engine generates a grid of tiles (`tile_map`), keeps the status of
//! every tile while a round is played (`board`), uncovers tiles with their
//! empty surroundings (`uncover`) and turns requests into announcements
//! (`events`). What every operation makes of a board is defined on a
//! mathematical model of it (`grid`, `board_view`); `laws` states what holds
//! of every grid and every board.
//!
//! Around the engine stand the options of a round (`options`), its saved
//! state (`snapshot`), the clock (`game_time`), the states of the
//! application (`app_state`), the mouse (`input`) and the admission of
//! clients (`protocol`).

pub mod app_state;
pub mod board;
pub mod board_view;
pub mod coordinates;
pub mod events;
pub mod game_time;
pub mod grid;
pub mod input;
pub mod laws;
pub mod options;
pub mod placement;
pub mod protocol;
pub mod random;
pub mod snapshot;
pub mod tally;
pub mod tile;
pub mod tile_map;
pub mod uncover;
