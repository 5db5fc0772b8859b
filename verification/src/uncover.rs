//! Uncovering: the flood fill from a cell, and the chained uncover around a
//! numbered tile.

use crate::board::Board;
use crate::board_view::BoardView;
use crate::coordinates::Coordinates;
use crate::tally::{count_true, lemma_count_push};
use crate::tile::{BoardError, Tile, TileStatus};
use vstd::prelude::*;
use vstd::seq_lib::lemma_seq_contains_after_push;

verus! {

/// What an uncover did.
#[derive(Debug, PartialEq, Eq)]
pub enum UncoverResult {
    /// The cells that were uncovered, each once; none where nothing changed.
    Uncovered(Vec<Coordinates>),
    /// The cell held a mine, which went off: the round is lost.
    Exploded(Coordinates),
}

/// What holds while the fill from `start` runs on the board that began as
/// `origin`: `now` are the statuses, `done` the cells uncovered so far and
/// `pending` those whose neighbours are still to be looked at.
spec fn filling(
    origin: BoardView,
    start: Coordinates,
    now: Seq<TileStatus>,
    done: Seq<Coordinates>,
    pending: Seq<Coordinates>,
) -> bool {
    &&& now.len() == origin.statuses.len()
    &&& forall|i: int|
        0 <= i < now.len() ==> #[trigger] now[i] == (if done.contains(origin.grid.cell(i)) {
            TileStatus::Uncovered
        } else {
            origin.statuses[i]
        })
    &&& forall|k: int| 0 <= k < done.len() ==> origin.reaches(start, #[trigger] done[k])
    &&& done.no_duplicates()
    &&& forall|k: int| 0 <= k < pending.len() ==> done.contains(#[trigger] pending[k])
    &&& done.contains(start)
}

/// Every empty tile that is done and no longer pending, but for `current`,
/// has all its openable neighbours done.
spec fn settled(
    origin: BoardView,
    done: Seq<Coordinates>,
    pending: Seq<Coordinates>,
    current: Option<Coordinates>,
) -> bool {
    forall|c: Coordinates|
        #[trigger] done.contains(c) && !pending.contains(c) && Some(c) != current && origin.tile(
            c,
        ) is Empty ==> origin.sealed(done, c)
}

proof fn lemma_fill_begin(origin: BoardView, start: Coordinates)
    requires
        origin.wf(),
        origin.openable(start),
    ensures
        filling(
            origin,
            start,
            origin.statuses.update(origin.grid.index(start), TileStatus::Uncovered),
            seq![start],
            seq![start],
        ),
        settled(origin, seq![start], seq![start], None),
{
    let done = seq![start];
    let now = origin.statuses.update(origin.grid.index(start), TileStatus::Uncovered);
    origin.grid.lemma_index(start);
    origin.lemma_reaches_start(start);
    assert(done[0] == start);
    assert forall|i: int| 0 <= i < now.len() implies #[trigger] now[i] == (if done.contains(
        origin.grid.cell(i),
    ) {
        TileStatus::Uncovered
    } else {
        origin.statuses[i]
    }) by {
        origin.grid.lemma_cell(i);
    }
}

/// Taking the last pending cell in hand.
proof fn lemma_fill_take(
    origin: BoardView,
    start: Coordinates,
    now: Seq<TileStatus>,
    done: Seq<Coordinates>,
    pending: Seq<Coordinates>,
)
    requires
        filling(origin, start, now, done, pending),
        settled(origin, done, pending, None),
        pending.len() > 0,
    ensures
        filling(origin, start, now, done, pending.drop_last()),
        settled(origin, done, pending.drop_last(), Some(pending.last())),
        done.contains(pending.last()),
        origin.reaches(start, pending.last()),
{
    let rest = pending.drop_last();
    let c = pending.last();
    assert forall|k: int| 0 <= k < rest.len() implies done.contains(#[trigger] rest[k]) by {
        assert(rest[k] == pending[k]);
    }
    assert(done.contains(pending[pending.len() - 1]));
    let at = choose|k: int| 0 <= k < done.len() && done[k] == c;
    assert(origin.reaches(start, done[at]));
    assert forall|u: Coordinates|
        #[trigger] done.contains(u) && !rest.contains(u) && Some(u) != Some(c) && origin.tile(
            u,
        ) is Empty implies origin.sealed(done, u) by {
        if pending.contains(u) {
            let k = choose|k: int| 0 <= k < pending.len() && pending[k] == u;
            assert(rest[k] == u);
        }
    }
}

/// Uncovering a covered neighbour of the cell in hand.
proof fn lemma_fill_open(
    origin: BoardView,
    start: Coordinates,
    now: Seq<TileStatus>,
    done: Seq<Coordinates>,
    pending: Seq<Coordinates>,
    current: Coordinates,
    next: Coordinates,
)
    requires
        origin.wf(),
        filling(origin, start, now, done, pending),
        settled(origin, done, pending, Some(current)),
        origin.reaches(start, current),
        origin.tile(current) is Empty,
        current.adjacent(next),
        origin.contains(next),
        now[origin.grid.index(next)] is Covered,
    ensures
        origin.openable(next),
        !(origin.tile(next) is Mine),
        !done.contains(next),
        filling(
            origin,
            start,
            now.update(origin.grid.index(next), TileStatus::Uncovered),
            done.push(next),
            pending.push(next),
        ),
        settled(origin, done.push(next), pending.push(next), Some(current)),
{
    broadcast use lemma_seq_contains_after_push;

    let idx = origin.grid.index(next);
    let now2 = now.update(idx, TileStatus::Uncovered);
    let done2 = done.push(next);
    let pending2 = pending.push(next);
    origin.grid.lemma_index(next);
    assert(now[idx] == (if done.contains(origin.grid.cell(idx)) {
        TileStatus::Uncovered
    } else {
        origin.statuses[idx]
    }));
    origin.lemma_reaches_step(start, current, next);
    origin.lemma_reaches_openable(start, current);
    origin.grid.lemma_empty_has_no_mine_around(current, next);
    assert forall|i: int| 0 <= i < now2.len() implies #[trigger] now2[i] == (if done2.contains(
        origin.grid.cell(i),
    ) {
        TileStatus::Uncovered
    } else {
        origin.statuses[i]
    }) by {
        origin.grid.lemma_cell(i);
        assert(now[i] == (if done.contains(origin.grid.cell(i)) {
            TileStatus::Uncovered
        } else {
            origin.statuses[i]
        }));
    }
    assert forall|k: int| 0 <= k < done2.len() implies origin.reaches(
        start,
        #[trigger] done2[k],
    ) by {
        if k < done.len() {
            assert(done2[k] == done[k]);
        }
    }
    assert forall|a: int, b: int| 0 <= a < done2.len() && 0 <= b < done2.len() && a != b implies done2[a]
        != done2[b] by {
        if a < done.len() {
            assert(done.contains(done[a]));
        }
        if b < done.len() {
            assert(done.contains(done[b]));
        }
    }
    assert forall|k: int| 0 <= k < pending2.len() implies done2.contains(
        #[trigger] pending2[k],
    ) by {
        if k < pending.len() {
            assert(pending2[k] == pending[k]);
            assert(done.contains(pending[k]));
        }
    }
    assert forall|u: Coordinates|
        #[trigger] done2.contains(u) && !pending2.contains(u) && Some(u) != Some(current)
            && origin.tile(u) is Empty implies origin.sealed(done2, u) by {
        assert(u != next);
        assert(done.contains(u));
        assert(!pending.contains(u));
        assert(origin.sealed(done, u));
    }
}

/// Passing over a neighbour that is not covered any more.
proof fn lemma_fill_skip(
    origin: BoardView,
    start: Coordinates,
    now: Seq<TileStatus>,
    done: Seq<Coordinates>,
    pending: Seq<Coordinates>,
    next: Coordinates,
)
    requires
        origin.wf(),
        filling(origin, start, now, done, pending),
        origin.contains(next),
        !(now[origin.grid.index(next)] is Covered),
    ensures
        origin.openable(next) ==> done.contains(next),
{
    let idx = origin.grid.index(next);
    origin.grid.lemma_index(next);
    assert(now[idx] == (if done.contains(origin.grid.cell(idx)) {
        TileStatus::Uncovered
    } else {
        origin.statuses[idx]
    }));
}

/// Laying the cell in hand aside once its neighbours were looked at.
proof fn lemma_fill_settle(
    origin: BoardView,
    done: Seq<Coordinates>,
    pending: Seq<Coordinates>,
    current: Coordinates,
)
    requires
        settled(origin, done, pending, Some(current)),
        origin.tile(current) is Empty ==> origin.sealed(done, current),
    ensures
        settled(origin, done, pending, None),
{
}

/// Once nothing is pending, the fill has arrived wherever it can.
proof fn lemma_fill_complete(
    origin: BoardView,
    start: Coordinates,
    done: Seq<Coordinates>,
    path: Seq<Coordinates>,
    i: int,
)
    requires
        settled(origin, done, Seq::empty(), None),
        done.contains(start),
        origin.fill_path(path),
        path[0] == start,
        0 <= i < path.len(),
    ensures
        done.contains(path[i]),
    decreases i,
{
    if i > 0 {
        lemma_fill_complete(origin, start, done, path, i - 1);
        assert(origin.link(path, i - 1));
        assert(origin.openable(path[i]));
        assert(origin.sealed(done, path[i - 1]));
    }
}

/// At the end of the fill the board is the one that the model gives.
proof fn lemma_fill_end(
    origin: BoardView,
    start: Coordinates,
    now: Seq<TileStatus>,
    done: Seq<Coordinates>,
)
    requires
        origin.wf(),
        filling(origin, start, now, done, Seq::empty()),
        settled(origin, done, Seq::empty(), None),
    ensures
        done.to_set() == origin.region(start),
        now == origin.with_uncovered(origin.region(start)).statuses,
{
    assert forall|c: Coordinates| done.contains(c) <==> origin.reaches(start, c) by {
        if done.contains(c) {
            let k = choose|k: int| 0 <= k < done.len() && done[k] == c;
            assert(origin.reaches(start, done[k]));
        }
        if origin.reaches(start, c) {
            let path = choose|path: Seq<Coordinates>|
                #[trigger] origin.fill_path(path) && path[0] == start && path[path.len() - 1] == c;
            lemma_fill_complete(origin, start, done, path, path.len() - 1);
        }
    }
    assert(done.to_set() =~= origin.region(start));
    assert(now =~= origin.with_uncovered(origin.region(start)).statuses);
}

impl Board {
    /// Uncovers the region that the fill from `start` arrives at and
    /// returns its cells.
    fn fill(&mut self, start: Coordinates) -> (cells: Vec<Coordinates>)
        requires
            old(self).wf(),
            old(self)@.openable(start),
            !(old(self)@.tile(start) is Mine),
        ensures
            final(self).wf(),
            final(self)@ == old(self)@.with_uncovered(old(self)@.region(start)),
            cells@.no_duplicates(),
            cells@.to_set() == old(self)@.region(start),
            final(self)@.covered_count() + cells@.len() == old(self)@.covered_count(),
            final(self)@.mines_remaining() == old(self)@.mines_remaining(),
            final(self)@.flag_count() == old(self)@.flag_count(),
    {
        let ghost origin = self@;
        let width = self.tile_map.width();
        let height = self.tile_map.height();
        let mut done: Vec<Coordinates> = Vec::new();
        let mut pending: Vec<Coordinates> = Vec::new();
        self.open_cell(start);
        done.push(start);
        pending.push(start);
        proof {
            lemma_fill_begin(origin, start);
            assert(done@ =~= seq![start]);
            assert(pending@ =~= seq![start]);
        }
        while pending.len() > 0
            invariant
                self.wf(),
                origin.wf(),
                self@.grid == origin.grid,
                self@.layout == origin.layout,
                width == origin.grid.width,
                height == origin.grid.height,
                filling(origin, start, self@.statuses, done@, pending@),
                settled(origin, done@, pending@, None),
                self.covered_count + done@.len() == origin.covered_count(),
                self.mines_remaining == origin.mines_remaining(),
                self.flag_count == origin.flag_count(),
            decreases self.covered_count, pending.len(),
        {
            let ghost covered_before = self.covered_count;
            let ghost pending_before = pending@;
            let current = pending.pop().unwrap();
            proof {
                assert(pending@ =~= pending_before.drop_last());
                lemma_fill_take(origin, start, self@.statuses, done@, pending_before);
                origin.lemma_reaches_openable(start, current);
            }
            let tile = self.tile_map.tile(current);
            let empty = match tile {
                Ok(t) => t.is_empty(),
                Err(_) => false,
            };
            if empty {
                let around = current.neighbors(width, height);
                let mut j: usize = 0;
                while j < around.len()
                    invariant
                        j <= around.len(),
                        self.wf(),
                        origin.wf(),
                        self@.grid == origin.grid,
                        self@.layout == origin.layout,
                        width == origin.grid.width,
                        height == origin.grid.height,
                        filling(origin, start, self@.statuses, done@, pending@),
                        settled(origin, done@, pending@, Some(current)),
                        origin.reaches(start, current),
                        origin.tile(current) is Empty,
                        forall|c: Coordinates| #[trigger]
                            around@.contains(c) <==> c.within(width as nat, height as nat)
                                && current.adjacent(c),
                        forall|k: int|
                            0 <= k < j && origin.openable(#[trigger] around[k]) ==> done@.contains(
                                around[k],
                            ),
                        self.covered_count + pending.len() == covered_before + pending_before.len()
                            - 1,
                        self.covered_count <= covered_before,
                        self.covered_count + done@.len() == origin.covered_count(),
                        self.mines_remaining == origin.mines_remaining(),
                        self.flag_count == origin.flag_count(),
                    decreases around.len() - j,
                {
                    let next = around[j];
                    assert(around@.contains(next));
                    let idx = self.position(next);
                    let ghost done_before = done@;
                    if self.statuses[idx].is_covered() {
                        proof {
                            lemma_fill_open(
                                origin,
                                start,
                                self@.statuses,
                                done@,
                                pending@,
                                current,
                                next,
                            );
                        }
                        self.open_cell(next);
                        done.push(next);
                        pending.push(next);
                    } else {
                        proof {
                            lemma_fill_skip(origin, start, self@.statuses, done@, pending@, next);
                        }
                    }
                    proof {
                        broadcast use lemma_seq_contains_after_push;

                        assert forall|k: int|
                            0 <= k < j + 1 && origin.openable(
                                #[trigger] around[k],
                            ) implies done@.contains(around[k]) by {
                            if k < j {
                                assert(done_before.contains(around[k]));
                            }
                        }
                    }
                    j = j + 1;
                }
                proof {
                    assert forall|n: Coordinates|
                        origin.openable(n) && #[trigger] current.adjacent(n) implies done@.contains(
                        n,
                    ) by {
                        assert(around@.contains(n));
                        let k = choose|k: int| 0 <= k < around@.len() && around@[k] == n;
                        assert(origin.openable(around[k]));
                    }
                }
            }
            proof {
                lemma_fill_settle(origin, done@, pending@, current);
            }
        }
        proof {
            assert(pending@ =~= Seq::empty());
            lemma_fill_end(origin, start, self@.statuses, done@);
        }
        done
    }

    /// Uncovers a cell.
    ///
    /// A cell that is flagged or already uncovered stays as it is, and no
    /// cell is reported. A mine goes off and is uncovered alone. Any other
    /// cell is uncovered together with the region that the fill from it
    /// arrives at; the cells of that region are reported, each once.
    /// Fails with `OutOfBounds` for a cell outside the grid.
    pub fn uncover(&mut self, c: Coordinates) -> (r: Result<UncoverResult, BoardError>)
        requires
            old(self).wf(),
        ensures
            final(self).wf(),
            final(self)@ == old(self)@.after_uncover(c),
            r is Err <==> !old(self)@.contains(c),
            r is Err ==> r->Err_0 == BoardError::OutOfBounds,
            r matches Ok(UncoverResult::Exploded(mine)) ==> {
                &&& mine == c
                &&& old(self)@.explodes(c)
                &&& final(self)@.covered_count() + 1 == old(self)@.covered_count()
                &&& final(self)@.mines_remaining() + 1 == old(self)@.mines_remaining()
            },
            r matches Ok(UncoverResult::Uncovered(cells)) ==> {
                &&& !old(self)@.explodes(c)
                &&& cells@.no_duplicates()
                &&& cells@.to_set() == old(self)@.uncovered_by(c)
                &&& final(self)@.covered_count() + cells@.len() == old(self)@.covered_count()
                &&& final(self)@.mines_remaining() == old(self)@.mines_remaining()
            },
            final(self)@.flag_count() == old(self)@.flag_count(),
    {
        let ghost origin = self@;
        if !self.tile_map.contains(c) {
            assert(origin.with_uncovered(Set::empty()).statuses =~= origin.statuses);
            return Err(BoardError::OutOfBounds);
        }
        let idx = self.position(c);
        if !self.statuses[idx].is_covered() {
            assert(origin.with_uncovered(Set::empty()).statuses =~= origin.statuses);
            let cells: Vec<Coordinates> = Vec::new();
            assert(cells@.to_set() =~= Set::<Coordinates>::empty());
            return Ok(UncoverResult::Uncovered(cells));
        }
        let mined = match self.tile_map.tile(c) {
            Ok(tile) => tile.is_mine(),
            Err(_) => false,
        };
        if mined {
            self.open_cell(c);
            proof {
                assert(self@.statuses =~= origin.with_uncovered(set![c]).statuses) by {
                    assert forall|i: int| 0 <= i < origin.statuses.len() implies self@.statuses[i]
                        == origin.with_uncovered(set![c]).statuses[i] by {
                        origin.grid.lemma_cell(i);
                        origin.grid.lemma_index(c);
                    }
                }
            }
            Ok(UncoverResult::Exploded(c))
        } else {
            let cells = self.fill(c);
            Ok(UncoverResult::Uncovered(cells))
        }
    }
}

/// Appends `cells` to `all`.
fn append(all: &mut Vec<Coordinates>, cells: &Vec<Coordinates>)
    ensures
        final(all)@ == old(all)@ + cells@,
{
    let mut k: usize = 0;
    while k < cells.len()
        invariant
            k <= cells.len(),
            all@ == old(all)@ + cells@.take(k as int),
        decreases cells.len() - k,
    {
        all.push(cells[k]);
        assert(cells@.take(k + 1) =~= cells@.take(k as int).push(cells@[k as int]));
        k = k + 1;
    }
    assert(cells@.take(k as int) =~= cells@);
}

/// What holds of the cells reported so far while a chained uncover runs:
/// they are the cells whose status differs from the one at the start, each
/// once, and each of them was covered and is uncovered.
spec fn reported(origin: BoardView, now: BoardView, all: Seq<Coordinates>) -> bool {
    &&& all.no_duplicates()
    &&& forall|t: Coordinates| #[trigger]
        all.contains(t) <==> origin.contains(t) && origin.status(t) != now.status(t)
    &&& forall|i: int|
        0 <= i < all.len() ==> origin.status(#[trigger] all[i]) is Covered && now.status(
            all[i],
        ) is Uncovered
}

/// One more uncover that set off no mine keeps the report exact.
proof fn lemma_report_grows(
    origin: BoardView,
    now: BoardView,
    all: Seq<Coordinates>,
    c: Coordinates,
    cells: Seq<Coordinates>,
)
    requires
        origin.wf(),
        now.wf(),
        now.grid == origin.grid,
        reported(origin, now, all),
        cells.no_duplicates(),
        cells.to_set() == now.uncovered_by(c),
    ensures
        reported(origin, now.after_uncover(c), all + cells),
{
    let later = now.after_uncover(c);
    let longer = all + cells;
    assert forall|t: Coordinates| origin.contains(t) implies later.status(t) == (if cells.contains(
        t,
    ) {
        TileStatus::Uncovered
    } else {
        now.status(t)
    }) && (cells.contains(t) ==> now.status(t) is Covered && !all.contains(t)) by {
        now.lemma_with_uncovered(now.uncovered_by(c), t);
        assert(cells.to_set().contains(t) == cells.contains(t));
        if cells.contains(t) {
            now.lemma_uncovered_by_openable(c, t);
            if all.contains(t) {
                let i = choose|i: int| 0 <= i < all.len() && all[i] == t;
                assert(now.status(all[i]) is Uncovered);
            }
        }
    }
    assert forall|i: int| 0 <= i < cells.len() implies origin.contains(#[trigger] cells[i]) by {
        assert(cells.to_set().contains(cells[i]));
        now.lemma_uncovered_by_openable(c, cells[i]);
    }
    assert forall|t: Coordinates| #[trigger]
        longer.contains(t) <==> origin.contains(t) && origin.status(t) != later.status(t) by {
        if longer.contains(t) {
            let i = choose|i: int| 0 <= i < longer.len() && longer[i] == t;
            if i < all.len() {
                assert(all[i] == t);
                assert(all.contains(t));
            } else {
                assert(cells[i - all.len()] == t);
                assert(cells.contains(t));
            }
        }
        if origin.contains(t) && origin.status(t) != later.status(t) {
            if cells.contains(t) {
                let i = choose|i: int| 0 <= i < cells.len() && cells[i] == t;
                assert(longer[all.len() + i] == t);
            } else {
                assert(all.contains(t));
                let i = choose|i: int| 0 <= i < all.len() && all[i] == t;
                assert(longer[i] == t);
            }
        }
    }
    assert forall|i: int| 0 <= i < longer.len() implies origin.status(
        #[trigger] longer[i],
    ) is Covered && later.status(longer[i]) is Uncovered by {
        if i < all.len() {
            assert(longer[i] == all[i]);
            assert(all.contains(all[i]));
        } else {
            assert(longer[i] == cells[i - all.len()]);
            assert(cells.contains(cells[i - all.len()]));
        }
    }
    assert forall|i: int, j: int|
        0 <= i < longer.len() && 0 <= j < longer.len() && i != j implies longer[i]
        != longer[j] by {
        if i < all.len() && j >= all.len() {
            assert(all.contains(all[i]));
            assert(cells.contains(cells[j - all.len()]));
        }
        if j < all.len() && i >= all.len() {
            assert(all.contains(all[j]));
            assert(cells.contains(cells[i - all.len()]));
        }
    }
}

impl Board {
    /// The number of flagged cells among `cells`.
    fn count_flags(&self, cells: &Vec<Coordinates>) -> (n: usize)
        requires
            self.wf(),
            forall|k: int| 0 <= k < cells.len() ==> self@.contains(#[trigger] cells[k]),
        ensures
            n == count_true(self@.flag_marks(cells@)),
    {
        let mut n: usize = 0;
        let mut k: usize = 0;
        while k < cells.len()
            invariant
                k <= cells.len(),
                self.wf(),
                forall|i: int| 0 <= i < cells.len() ==> self@.contains(#[trigger] cells[i]),
                n == count_true(self@.flag_marks(cells@.take(k as int))),
                n <= k,
            decreases cells.len() - k,
        {
            let idx = self.position(cells[k]);
            proof {
                let shorter = self@.flag_marks(cells@.take(k as int));
                let longer = self@.flag_marks(cells@.take(k + 1));
                assert(longer =~= shorter.push(self@.status(cells@[k as int]).flagged()));
                lemma_count_push(shorter, self@.status(cells@[k as int]).flagged());
            }
            if self.statuses[idx].is_flagged() {
                n = n + 1;
            }
            k = k + 1;
        }
        assert(cells@.take(k as int) =~= cells@);
        n
    }

    /// Uncovers the neighbours of an uncovered, numbered tile.
    ///
    /// Where as many neighbours are flagged as the tile has mines around,
    /// the neighbours are uncovered one after the other, row by row, each as
    /// `uncover` does it, up to the first that sets off a mine. Otherwise
    /// nothing changes and no cell is reported.
    /// Fails with `OutOfBounds` for a cell outside the grid and with
    /// `InvalidOperation` for a cell that is not an uncovered, numbered tile.
    pub fn uncover_adjacent(&mut self, c: Coordinates) -> (r: Result<UncoverResult, BoardError>)
        requires
            old(self).wf(),
        ensures
            final(self).wf(),
            final(self)@ == old(self)@.after_uncover_adjacent(c),
            r is Ok <==> old(self)@.chainable(c),
            r is Err ==> r->Err_0 == (if old(self)@.contains(c) {
                BoardError::InvalidOperation
            } else {
                BoardError::OutOfBounds
            }),
            r matches Ok(UncoverResult::Exploded(mine)) ==> old(self)@.adjacent_explosion(c)
                == Some(mine),
            r matches Ok(UncoverResult::Uncovered(cells)) ==> {
                &&& old(self)@.adjacent_explosion(c) is None
                &&& cells@.no_duplicates()
                &&& cells@.to_set() == old(self)@.changed_until(final(self)@)
                &&& final(self)@.covered_count() + cells@.len() == old(self)@.covered_count()
                &&& final(self)@.mines_remaining() == old(self)@.mines_remaining()
            },
            final(self)@.flag_count() == old(self)@.flag_count(),
    {
        let ghost origin = self@;
        if !self.tile_map.contains(c) {
            return Err(BoardError::OutOfBounds);
        }
        let idx = self.position(c);
        if !self.statuses[idx].is_uncovered() {
            return Err(BoardError::InvalidOperation);
        }
        let wanted: u8 = match self.tile_map.tile(c) {
            Ok(Tile::MineNeighbor(n)) => n,
            _ => {
                return Err(BoardError::InvalidOperation);
            },
        };
        let around = c.neighbors(self.tile_map.width(), self.tile_map.height());
        assert forall|k: int| 0 <= k < around.len() implies origin.contains(
            #[trigger] around[k],
        ) by {
            assert(around@.contains(around[k]));
        }
        let flags = self.count_flags(&around);
        let mut all: Vec<Coordinates> = Vec::new();
        if flags != wanted as usize {
            assert(all@.to_set() =~= origin.changed_until(origin));
            return Ok(UncoverResult::Uncovered(all));
        }
        let mut j: usize = 0;
        proof {
            assert(around@.skip(0) =~= around@);
        }
        while j < around.len()
            invariant
                j <= around.len(),
                self.wf(),
                origin.wf(),
                self@.grid == origin.grid,
                self@.layout == origin.layout,
                origin == old(self)@,
                origin.chain_ready(c),
                around@ == origin.around(c),
                forall|k: int| 0 <= k < around.len() ==> origin.contains(#[trigger] around[k]),
                origin.chain(around@) == self@.chain(around@.skip(j as int)),
                origin.chain_explosion(around@) == self@.chain_explosion(around@.skip(j as int)),
                reported(origin, self@, all@),
                self@.covered_count() + all@.len() == origin.covered_count(),
                self@.mines_remaining() == origin.mines_remaining(),
                self@.flag_count() == origin.flag_count(),
            decreases around.len() - j,
        {
            let next = around[j];
            let ghost now = self@;
            proof {
                let rest = around@.skip(j as int);
                assert(rest[0] == next);
                assert(rest.drop_first() =~= around@.skip(j + 1));
            }
            match self.uncover(next) {
                Ok(UncoverResult::Exploded(mine)) => {
                    return Ok(UncoverResult::Exploded(mine));
                },
                Ok(UncoverResult::Uncovered(cells)) => {
                    proof {
                        lemma_report_grows(origin, now, all@, next, cells@);
                    }
                    append(&mut all, &cells);
                },
                Err(error) => {
                    return Err(error);
                },
            }
            j = j + 1;
        }
        proof {
            assert(around@.skip(j as int) =~= Seq::<Coordinates>::empty());
            assert(all@.to_set() =~= origin.changed_until(self@));
        }
        Ok(UncoverResult::Uncovered(all))
    }
}

} // verus!
