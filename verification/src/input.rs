//! From a press of a mouse button to a request to the board.

use crate::board::Board;
use crate::board_view::BoardView;
use crate::coordinates::Coordinates;
use crate::events::BoardEvent;
use vstd::prelude::*;

verus! {

/// A button of the mouse.
#[derive(Clone, Copy, Debug, PartialEq, Eq, Hash, Structural)]
pub enum MouseButton {
    Left,
    Right,
    Middle,
    Other(u16),
}

/// What a press of the button on the tile asks for: the left button
/// triggers the tile, the right one marks it, the middle one asks for its
/// neighbours; any other button asks for nothing.
pub open spec fn button_event(button: MouseButton, c: Coordinates) -> Option<BoardEvent> {
    match button {
        MouseButton::Left => Some(BoardEvent::TileTriggered(c)),
        MouseButton::Right => Some(BoardEvent::TileMarked(c)),
        MouseButton::Middle => Some(BoardEvent::AdjacentUncoverRequested(c)),
        MouseButton::Other(_) => None,
    }
}

/// What a change of a mouse button asks of the board: a press with the
/// cursor over a tile asks what the button stands for; a release, a cursor
/// outside the window or outside the grid asks for nothing.
pub open spec fn input_event(
    board: BoardView,
    pressed: bool,
    button: MouseButton,
    cursor: Option<(i32, i32)>,
) -> Option<BoardEvent> {
    if !pressed {
        None
    } else {
        match cursor {
            Some((x, y)) => match board.cell_under(x as int, y as int) {
                Some(c) => button_event(button, c),
                None => None,
            },
            None => None,
        }
    }
}

/// Turns one change of a mouse button into the request that it makes of
/// the board, if any. `cursor` is the position of the cursor on the screen
/// of the board, or `None` while the cursor is outside the window.
pub fn input_handling(
    board: &Board,
    pressed: bool,
    button: MouseButton,
    cursor: Option<(i32, i32)>,
) -> (event: Option<BoardEvent>)
    requires
        board.wf(),
    ensures
        event == input_event(board@, pressed, button, cursor),
{
    if !pressed {
        return None;
    }
    match cursor {
        Some((x, y)) => match board.screen_to_coordinate(x, y) {
            Some(c) => match button {
                MouseButton::Left => Some(BoardEvent::TileTriggered(c)),
                MouseButton::Right => Some(BoardEvent::TileMarked(c)),
                MouseButton::Middle => Some(BoardEvent::AdjacentUncoverRequested(c)),
                MouseButton::Other(_) => None,
            },
            None => None,
        },
        None => None,
    }
}

} // verus!
