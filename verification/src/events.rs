//! The notifications that go into and come out of the board.

use crate::board::Board;
use crate::board_view::{flipped, BoardView};
use crate::coordinates::Coordinates;
use crate::tile::{BoardError, TileStatus};
use crate::uncover::UncoverResult;
use vstd::prelude::*;

verus! {

/// A notification. The first three ask the board for something; the last
/// two are what the board announces.
#[derive(Clone, Copy, Debug, PartialEq, Eq, Structural)]
pub enum BoardEvent {
    /// The player wants the tile uncovered.
    TileTriggered(Coordinates),
    /// The player wants the flag on the tile set or removed.
    TileMarked(Coordinates),
    /// The player wants the neighbours of the tile uncovered.
    AdjacentUncoverRequested(Coordinates),
    /// A mine went off at the tile: the round is lost.
    BombExploded(Coordinates),
    /// Every tile without a mine is uncovered: the round is won.
    BoardCompleted,
}

/// What the board hands back for a request: the cells to draw anew and, at
/// the end of the round, the announcement of how it ended.
#[derive(Debug, PartialEq, Eq)]
pub struct Outcome {
    pub changed: Vec<Coordinates>,
    pub signal: Option<BoardEvent>,
}

impl BoardView {
    /// The board takes the request.
    pub open spec fn accepts(self, event: BoardEvent) -> bool {
        match event {
            BoardEvent::TileTriggered(c) => self.contains(c),
            BoardEvent::TileMarked(c) => self.contains(c) && !(self.status(c) is Uncovered),
            BoardEvent::AdjacentUncoverRequested(c) => self.chainable(c),
            _ => true,
        }
    }

    /// The error with which the board refuses a request that it does not take.
    pub open spec fn refusal(self, event: BoardEvent) -> BoardError {
        match event {
            BoardEvent::TileTriggered(c) => BoardError::OutOfBounds,
            BoardEvent::TileMarked(c) => if self.contains(c) {
                BoardError::InvalidOperation
            } else {
                BoardError::OutOfBounds
            },
            BoardEvent::AdjacentUncoverRequested(c) => if self.contains(c) {
                BoardError::InvalidOperation
            } else {
                BoardError::OutOfBounds
            },
            _ => BoardError::InvalidOperation,
        }
    }

    /// The board after the request; announcements change nothing.
    pub open spec fn after_event(self, event: BoardEvent) -> BoardView {
        match event {
            BoardEvent::TileTriggered(c) => self.after_uncover(c),
            BoardEvent::TileMarked(c) => if self.accepts(event) {
                self.after_toggle(c)
            } else {
                self
            },
            BoardEvent::AdjacentUncoverRequested(c) => self.after_uncover_adjacent(c),
            _ => self,
        }
    }

    /// The mine that the request sets off, if any.
    pub open spec fn explosion(self, event: BoardEvent) -> Option<Coordinates> {
        match event {
            BoardEvent::TileTriggered(c) => if self.explodes(c) {
                Some(c)
            } else {
                None
            },
            BoardEvent::AdjacentUncoverRequested(c) => self.adjacent_explosion(c),
            _ => None,
        }
    }

    /// The request asks for tiles to be uncovered.
    pub open spec fn uncovers(self, event: BoardEvent) -> bool {
        event is TileTriggered || event is AdjacentUncoverRequested
    }

    /// The cells that are reported for the request: the mine alone where one
    /// went off, else every cell whose status changed.
    pub open spec fn reported_cells(self, event: BoardEvent) -> Set<Coordinates> {
        match self.explosion(event) {
            Some(mine) => set![mine],
            None => self.changed_until(self.after_event(event)),
        }
    }

    /// What the board announces after the request: the explosion where a
    /// mine went off; the completion where tiles were uncovered and none
    /// without a mine is left covered; else nothing.
    pub open spec fn signal(self, event: BoardEvent) -> Option<BoardEvent> {
        match self.explosion(event) {
            Some(mine) => Some(BoardEvent::BombExploded(mine)),
            None => if self.uncovers(event) && self.reported_cells(event) != Set::<
                Coordinates,
            >::empty() && self.after_event(event).cleared() {
                Some(BoardEvent::BoardCompleted)
            } else {
                None
            },
        }
    }

    /// What `process` owes for the request `event` on this board: the
    /// board `later` and the result `r`.
    pub open spec fn processed(
        self,
        event: BoardEvent,
        later: BoardView,
        r: Result<Outcome, BoardError>,
    ) -> bool {
        &&& later == self.after_event(event)
        &&& r is Ok <==> self.accepts(event)
        &&& r is Err ==> r->Err_0 == self.refusal(event) && later == self
        &&& r matches Ok(outcome) ==> {
            &&& outcome.signal == self.signal(event)
            &&& outcome.changed@.no_duplicates()
            &&& outcome.changed@.to_set() == self.reported_cells(event)
        }
    }

    /// An uncover changes the status of exactly the cells that it uncovers.
    pub proof fn lemma_uncover_changes(self, c: Coordinates)
        requires
            self.wf(),
        ensures
            self.changed_until(self.after_uncover(c)) == self.uncovered_by(c),
    {
        let cells = self.uncovered_by(c);
        let later = self.after_uncover(c);
        assert forall|t: Coordinates| self.changed_until(later).contains(t) <==> cells.contains(
            t,
        ) by {
            if cells.contains(t) {
                self.lemma_uncovered_by_openable(c, t);
            }
            if self.contains(t) {
                self.lemma_with_uncovered(cells, t);
            }
        }
        assert(self.changed_until(later) =~= cells);
    }

    /// A press of the flag button changes the status of the cell alone,
    /// and of no cell where the status does not flip.
    pub proof fn lemma_toggle_changes(self, c: Coordinates)
        requires
            self.wf(),
            self.contains(c),
        ensures
            self.changed_until(self.after_toggle(c)) == if flipped(self.status(c)) == self.status(
                c,
            ) {
                Set::<Coordinates>::empty()
            } else {
                set![c]
            },
    {
        let later = self.after_toggle(c);
        self.grid.lemma_index(c);
        assert forall|t: Coordinates| self.contains(t) && t != c implies later.status(t)
            == self.status(t) by {
            self.grid.lemma_index(t);
        }
        if flipped(self.status(c)) == self.status(c) {
            assert(self.changed_until(later) =~= Set::<Coordinates>::empty());
        } else {
            assert(self.changed_until(later) =~= set![c]);
        }
    }
}

/// The announcement that follows an uncover.
fn announce(result: UncoverResult, cleared: bool) -> (outcome: Outcome)
    ensures
        match result {
            UncoverResult::Exploded(mine) => outcome.changed@ == seq![mine] && outcome.signal
                == Some(BoardEvent::BombExploded(mine)),
            UncoverResult::Uncovered(cells) => outcome.changed == cells && outcome.signal == if cleared
                && cells.len() > 0 {
                Some(BoardEvent::BoardCompleted)
            } else {
                None
            },
        },
{
    match result {
        UncoverResult::Exploded(mine) => {
            let mut changed: Vec<Coordinates> = Vec::new();
            changed.push(mine);
            assert(changed@ =~= seq![mine]);
            Outcome { changed, signal: Some(BoardEvent::BombExploded(mine)) }
        },
        UncoverResult::Uncovered(cells) => {
            let signal = if cleared && cells.len() > 0 {
                Some(BoardEvent::BoardCompleted)
            } else {
                None
            };
            Outcome { changed: cells, signal }
        },
    }
}

/// A report without cells stands for the empty set, one with cells does not.
proof fn lemma_cells_reported(cells: Seq<Coordinates>)
    ensures
        cells.len() > 0 <==> cells.to_set() != Set::<Coordinates>::empty(),
{
    if cells.len() > 0 {
        assert(cells.contains(cells[0]));
        assert(cells.to_set().contains(cells[0]));
    } else {
        assert(cells.to_set() =~= Set::<Coordinates>::empty());
    }
}

/// A report of one cell stands for the set of that cell.
proof fn lemma_one_reported(c: Coordinates)
    ensures
        seq![c].to_set() == set![c],
        seq![c].no_duplicates(),
{
    let cells = seq![c];
    assert forall|t: Coordinates| cells.contains(t) <==> t == c by {
        if t == c {
            assert(cells[0] == c);
        }
    }
    assert(cells.to_set() =~= set![c]);
}

/// What the cells of a result stand for.
proof fn lemma_result_reported(result: UncoverResult)
    ensures
        match result {
            UncoverResult::Uncovered(cells) => cells.len() > 0 <==> cells@.to_set() != Set::<
                Coordinates,
            >::empty(),
            UncoverResult::Exploded(mine) => seq![mine].to_set() == set![mine]
                && seq![mine].no_duplicates(),
        },
{
    match result {
        UncoverResult::Uncovered(cells) => {
            lemma_cells_reported(cells@);
        },
        UncoverResult::Exploded(mine) => {
            lemma_one_reported(mine);
        },
    }
}

impl Board {
    /// Handles one notification.
    ///
    /// A trigger uncovers, a mark sets or removes the flag, an adjacent
    /// request uncovers the neighbours; what the board itself announces is
    /// passed over. Where a request is refused the board stays as it was.
    pub fn process(&mut self, event: BoardEvent) -> (r: Result<Outcome, BoardError>)
        requires
            old(self).wf(),
        ensures
            final(self).wf(),
            old(self)@.processed(event, final(self)@, r),
    {
        let ghost origin = self@;
        match event {
            BoardEvent::TileTriggered(c) => {
                proof {
                    origin.lemma_uncover_changes(c);
                }
                match self.uncover(c) {
                    Ok(result) => {
                        proof {
                            lemma_result_reported(result);
                        }
                        let cleared = self.is_cleared();
                        Ok(announce(result, cleared))
                    },
                    Err(error) => {
                        assert(origin.with_uncovered(Set::empty()).statuses =~= origin.statuses);
                        Err(error)
                    },
                }
            },
            BoardEvent::TileMarked(c) => {
                let before = self.status_of(c);
                match self.toggle_flag(c) {
                    Ok(status) => {
                        let mut changed: Vec<Coordinates> = Vec::new();
                        let flips = match before {
                            Ok(TileStatus::Covered) => true,
                            Ok(TileStatus::Flagged) => true,
                            _ => false,
                        };
                        if flips {
                            changed.push(c);
                        }
                        proof {
                            origin.lemma_toggle_changes(c);
                            if flips {
                                assert(changed@ =~= seq![c]);
                                lemma_one_reported(c);
                            } else {
                                assert(changed@.to_set() =~= Set::<Coordinates>::empty());
                            }
                        }
                        Ok(Outcome { changed, signal: None })
                    },
                    Err(error) => Err(error),
                }
            },
            BoardEvent::AdjacentUncoverRequested(c) => {
                match self.uncover_adjacent(c) {
                    Ok(result) => {
                        proof {
                            lemma_result_reported(result);
                        }
                        let cleared = self.is_cleared();
                        Ok(announce(result, cleared))
                    },
                    Err(error) => Err(error),
                }
            },
            _ => {
                let changed: Vec<Coordinates> = Vec::new();
                assert(changed@.to_set() =~= origin.changed_until(origin));
                assert(origin.changed_until(origin) =~= Set::<Coordinates>::empty());
                Ok(Outcome { changed, signal: None })
            },
        }
    }

    /// Uncovers the tile that the player triggered.
    pub fn trigger(&mut self, c: Coordinates) -> (r: Result<Outcome, BoardError>)
        requires
            old(self).wf(),
        ensures
            final(self).wf(),
            old(self)@.processed(BoardEvent::TileTriggered(c), final(self)@, r),
    {
        self.process(BoardEvent::TileTriggered(c))
    }

    /// Sets or removes the flag on the tile that the player marked.
    pub fn mark(&mut self, c: Coordinates) -> (r: Result<Outcome, BoardError>)
        requires
            old(self).wf(),
        ensures
            final(self).wf(),
            old(self)@.processed(BoardEvent::TileMarked(c), final(self)@, r),
    {
        self.process(BoardEvent::TileMarked(c))
    }

    /// Uncovers the neighbours of the numbered tile that the player chose.
    pub fn request_adjacent_uncover(&mut self, c: Coordinates) -> (r: Result<Outcome, BoardError>)
        requires
            old(self).wf(),
        ensures
            final(self).wf(),
            old(self)@.processed(BoardEvent::AdjacentUncoverRequested(c), final(self)@, r),
    {
        self.process(BoardEvent::AdjacentUncoverRequested(c))
    }
}

} // verus!
