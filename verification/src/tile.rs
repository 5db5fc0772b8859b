//! Tiles, their runtime status and the errors of the engine.

use vstd::prelude::*;

verus! {

/// What a cell of the generated grid holds.
#[derive(Clone, Copy, Debug, PartialEq, Eq, Structural)]
pub enum Tile {
    /// No mine here and none around.
    Empty,
    /// A mine.
    Mine,
    /// No mine here; the number of mines among the neighbours, 1 to 8.
    MineNeighbor(u8),
}

/// What the player has done with a cell.
#[derive(Clone, Copy, Debug, PartialEq, Eq, Structural)]
pub enum TileStatus {
    Covered,
    Uncovered,
    Flagged,
    /// A flag that turned out to stand on a mine; set for display only.
    FlaggedBomb,
}

/// The recoverable failures of the engine.
#[derive(Clone, Copy, Debug, PartialEq, Eq, Structural)]
pub enum BoardError {
    /// The requested grid cannot hold the requested mines.
    InvalidConfiguration,
    /// The cell lies outside the grid.
    OutOfBounds,
    /// The operation does not apply to the cell in its current status.
    InvalidOperation,
}

impl Tile {
    pub fn is_mine(&self) -> (r: bool)
        ensures
            r == (*self is Mine),
    {
        match self {
            Tile::Mine => true,
            _ => false,
        }
    }

    pub fn is_empty(&self) -> (r: bool)
        ensures
            r == (*self is Empty),
    {
        match self {
            Tile::Empty => true,
            _ => false,
        }
    }

    /// The tile of a cell without a mine that has `count` mines around it.
    pub open spec fn numbered(count: nat) -> Tile {
        if count == 0 {
            Tile::Empty
        } else {
            Tile::MineNeighbor(count as u8)
        }
    }

    /// The number of mines that this tile reports around itself.
    pub open spec fn reported(self) -> nat {
        match self {
            Tile::MineNeighbor(n) => n as nat,
            _ => 0,
        }
    }

    /// The number of neighbouring mines that the tile announces; 0 for a mine.
    pub fn mine_count(&self) -> (n: u8)
        ensures
            n == self.reported(),
    {
        match self {
            Tile::MineNeighbor(n) => *n,
            _ => 0,
        }
    }
}

impl TileStatus {
    /// The status counts as a flag on the cell.
    pub open spec fn flagged(self) -> bool {
        self is Flagged || self is FlaggedBomb
    }

    pub fn is_flagged(&self) -> (r: bool)
        ensures
            r == self.flagged(),
    {
        match self {
            TileStatus::Flagged => true,
            TileStatus::FlaggedBomb => true,
            _ => false,
        }
    }

    pub fn is_uncovered(&self) -> (r: bool)
        ensures
            r == (*self is Uncovered),
    {
        match self {
            TileStatus::Uncovered => true,
            _ => false,
        }
    }

    pub fn is_covered(&self) -> (r: bool)
        ensures
            r == (*self is Covered),
    {
        match self {
            TileStatus::Covered => true,
            _ => false,
        }
    }
}

} // verus!
