//! What holds of every grid and of every board, whatever was played on it.

use crate::board_view::BoardView;
use crate::coordinates::Coordinates;
use crate::grid::Grid;
use crate::placement::{eligible, generable, lemma_eligible, shielded};
use crate::random::lemma_drawn_cells;
use crate::tile_map::mine_cells;
use crate::tile::Tile;
use vstd::arithmetic::div_mod::lemma_fundamental_div_mod_converse;
use vstd::prelude::*;

verus! {

impl Grid {
    /// The `i`-th cell of a path touches the next one.
    pub open spec fn empty_link(self, path: Seq<Coordinates>, i: int) -> bool {
        path[i].adjacent(path[i + 1])
    }

    /// A path of empty tiles of the grid, each touching the next.
    pub open spec fn empty_path(self, path: Seq<Coordinates>) -> bool {
        &&& path.len() >= 1
        &&& forall|i: int|
            0 <= i < path.len() ==> self.contains(#[trigger] path[i]) && self.tile(path[i]) is Empty
        &&& forall|i: int| 0 <= i < path.len() - 1 ==> #[trigger] self.empty_link(path, i)
    }

    /// The two cells lie in one connected region of empty tiles.
    pub open spec fn connected(self, start: Coordinates, target: Coordinates) -> bool {
        exists|path: Seq<Coordinates>|
            #[trigger] self.empty_path(path) && path[0] == start && path[path.len() - 1] == target
    }

    /// The cell lies in the connected region of empty tiles around `start`
    /// or borders on it.
    pub open spec fn in_cascade(self, start: Coordinates, target: Coordinates) -> bool {
        self.contains(target) && (self.connected(start, target) || exists|edge: Coordinates|
            #[trigger] self.connected(start, edge) && edge.adjacent(target))
    }

    /// A numbered tile has exactly as many mines around it as it says, an
    /// empty tile has none, and a tile is a mine exactly where a mine lies.
    pub proof fn lemma_tiles_are_exact(self, c: Coordinates)
        requires
            self.wf(),
            self.contains(c),
        ensures
            self.tile(c) is Mine <==> self.mine_at(c.x as int, c.y as int),
            self.tile(c) is Empty ==> self.mines_around(c) == 0,
            self.tile(c) matches Tile::MineNeighbor(n) ==> 1 <= n <= 8 && self.mines_around(c) == n,
    {
        assert(self.tile(c) == self.expected(c));
    }

    /// Every cell of the grid holds one tile of its own: two cells never
    /// share a place in the grid.
    pub proof fn lemma_cells_are_distinct(self, a: Coordinates, b: Coordinates)
        requires
            self.wf(),
            self.contains(a),
            self.contains(b),
            a != b,
        ensures
            self.index(a) != self.index(b),
            0 <= self.index(a) < self.tiles.len(),
    {
        self.lemma_index(a);
        self.lemma_index(b);
    }
}

/// The mines of a generated grid are as many as were asked for, lie on
/// distinct cells of the grid, and none of them lies in the block around
/// the safe cell.
pub proof fn lemma_mines_are_placed(
    width: nat,
    height: nat,
    mine_count: nat,
    safe: Option<Coordinates>,
    seed: u64,
)
    requires
        width <= u16::MAX,
        height <= u16::MAX,
        generable(width, height, mine_count, safe),
    ensures
        mine_cells(width, height, mine_count, safe, seed).len() == mine_count,
        mine_cells(width, height, mine_count, safe, seed).no_duplicates(),
        forall|c: Coordinates| #[trigger]
            mine_cells(width, height, mine_count, safe, seed).contains(c) ==> c.within(
                width,
                height,
            ) && !shielded(safe, c),
{
    lemma_eligible(width, height, safe);
    lemma_drawn_cells(eligible(width, height, safe), seed, mine_count);
}

impl BoardView {
    /// A second uncover of the same cell changes nothing and reports no cell.
    pub proof fn lemma_uncover_twice(self, c: Coordinates)
        requires
            self.wf(),
        ensures
            self.after_uncover(c).uncovered_by(c) == Set::<Coordinates>::empty(),
            self.after_uncover(c).after_uncover(c) == self.after_uncover(c),
    {
        let once = self.after_uncover(c);
        if self.openable(c) {
            if !(self.tile(c) is Mine) {
                self.lemma_reaches_start(c);
            }
            self.lemma_with_uncovered(self.uncovered_by(c), c);
            assert(once.status(c) is Uncovered);
        } else if self.contains(c) {
            self.lemma_with_uncovered(self.uncovered_by(c), c);
        }
        assert(!once.openable(c));
        assert(once.with_uncovered(Set::empty()).statuses =~= once.statuses);
    }

    /// An uncover of a cell that is already uncovered changes nothing and
    /// reports no cell.
    pub proof fn lemma_uncover_uncovered(self, c: Coordinates)
        requires
            self.wf(),
            self.contains(c),
            self.status(c) is Uncovered,
        ensures
            self.uncovered_by(c) == Set::<Coordinates>::empty(),
            self.after_uncover(c) == self,
    {
        assert(self.with_uncovered(Set::empty()).statuses =~= self.statuses);
    }

    /// An uncover of a flagged cell changes nothing and reports no cell.
    pub proof fn lemma_uncover_flagged(self, c: Coordinates)
        requires
            self.wf(),
            self.contains(c),
            self.status(c).flagged(),
        ensures
            self.uncovered_by(c) == Set::<Coordinates>::empty(),
            self.after_uncover(c) == self,
    {
        assert(self.with_uncovered(Set::empty()).statuses =~= self.statuses);
    }

    /// No mine lies in the region that a fill from a tile without a mine arrives at.
    pub proof fn lemma_region_has_no_mine(self, start: Coordinates, target: Coordinates)
        requires
            self.wf(),
            self.reaches(start, target),
            !(self.tile(start) is Mine),
        ensures
            !(self.tile(target) is Mine),
    {
        let path = choose|path: Seq<Coordinates>|
            #[trigger] self.fill_path(path) && path[0] == start && path[path.len() - 1] == target;
        if path.len() > 1 {
            let i = path.len() - 2;
            assert(self.link(path, i));
            assert(self.openable(path[i]));
            assert(self.openable(path[i + 1]));
            self.grid.lemma_empty_has_no_mine_around(path[i], path[i + 1]);
        }
    }

    /// An uncover that sets off no mine uncovers no mine.
    pub proof fn lemma_only_explosions_uncover_mines(self, c: Coordinates, target: Coordinates)
        requires
            self.wf(),
            !self.explodes(c),
            self.uncovered_by(c).contains(target),
        ensures
            !(self.tile(target) is Mine),
    {
        self.lemma_region_has_no_mine(c, target);
    }

    /// A mine that is uncovered changes the status of no other cell.
    pub proof fn lemma_explosion_is_local(self, c: Coordinates, other: Coordinates)
        requires
            self.wf(),
            self.explodes(c),
            self.contains(other),
            other != c,
        ensures
            self.after_uncover(c).status(other) == self.status(other),
            self.after_uncover(c).status(c) is Uncovered,
    {
        self.lemma_with_uncovered(self.uncovered_by(c), other);
        self.lemma_with_uncovered(self.uncovered_by(c), c);
    }

    /// Setting or removing a flag keeps the number of covered cells.
    pub proof fn lemma_toggle_keeps_covered_count(self, c: Coordinates)
        requires
            self.wf(),
        ensures
            self.after_toggle(c).covered_count() == self.covered_count(),
    {
        if self.contains(c) {
            self.grid.lemma_index(c);
            assert(self.after_toggle(c).hidden() =~= self.hidden());
        }
    }

    /// No cell of the cascade around `start` carries a flag.
    pub open spec fn cascade_unflagged(self, start: Coordinates) -> bool {
        forall|c: Coordinates| #[trigger] self.grid.in_cascade(start, c) ==> !self.status(c).flagged()
    }

    /// No uncovered empty tile has a covered neighbour: what every uncover
    /// leaves behind, unless a flag stood in its way and was taken off later.
    pub open spec fn settled(self) -> bool {
        forall|c: Coordinates, n: Coordinates|
            self.contains(c) && self.contains(n) && self.status(c) is Uncovered && self.tile(
                c,
            ) is Empty && #[trigger] c.adjacent(n) ==> !(self.status(n) is Covered)
    }

    /// The fill from an empty tile never leaves the connected region of
    /// empty tiles around it and the tiles that border on the region.
    pub proof fn lemma_fill_stays_in_the_cascade(self, start: Coordinates, target: Coordinates)
        requires
            self.tile(start) is Empty,
            self.reaches(start, target),
        ensures
            self.grid.in_cascade(start, target),
    {
        let path = choose|path: Seq<Coordinates>|
            #[trigger] self.fill_path(path) && path[0] == start && path[path.len() - 1] == target;
        assert(self.openable(path[path.len() - 1]));
        assert(self.openable(path[0]));
        if path.len() == 1 {
            assert(self.grid.empty_path(path));
        } else {
            let inner = path.drop_last();
            assert forall|i: int| 0 <= i < inner.len() implies self.grid.contains(
                #[trigger] inner[i],
            ) && self.grid.tile(inner[i]) is Empty by {
                assert(self.link(path, i));
                assert(self.openable(path[i]));
            }
            assert forall|i: int| 0 <= i < inner.len() - 1 implies #[trigger] self.grid.empty_link(
                inner,
                i,
            ) by {
                assert(self.link(path, i));
            }
            assert(self.grid.empty_path(inner));
            let edge = inner[inner.len() - 1];
            assert(inner[0] == start);
            assert(self.grid.connected(start, edge));
            assert(self.link(path, path.len() - 2));
            assert(edge.adjacent(target));
        }
    }

    /// An uncover of an empty tile changes no cell outside the connected
    /// region of empty tiles around it and its border.
    pub proof fn lemma_uncover_spares_the_rest(self, start: Coordinates, other: Coordinates)
        requires
            self.wf(),
            self.contains(start),
            self.tile(start) is Empty,
            self.contains(other),
            !self.grid.in_cascade(start, other),
        ensures
            self.after_uncover(start).status(other) == self.status(other),
    {
        self.lemma_with_uncovered(self.uncovered_by(start), other);
        if self.reaches(start, other) {
            self.lemma_fill_stays_in_the_cascade(start, other);
        }
    }

    /// Where an empty tile is uncovered, a neighbour of an empty tile that
    /// ends up uncovered ends up uncovered too.
    proof fn lemma_cascade_step(self, start: Coordinates, from: Coordinates, next: Coordinates)
        requires
            self.wf(),
            self.openable(start),
            self.tile(start) is Empty,
            self.cascade_unflagged(start),
            self.settled(),
            self.contains(from),
            self.tile(from) is Empty,
            self.after_uncover(start).status(from) is Uncovered,
            from.adjacent(next),
            self.grid.in_cascade(start, next),
        ensures
            self.after_uncover(start).status(next) is Uncovered,
    {
        let cells = self.uncovered_by(start);
        self.lemma_with_uncovered(cells, from);
        self.lemma_with_uncovered(cells, next);
        if cells.contains(from) {
            self.lemma_uncovered_by_openable(start, from);
        }
        if self.status(next) is Covered {
            if self.status(from) is Covered {
                self.lemma_reaches_step(start, from, next);
            }
        }
    }

    /// Where an empty tile is uncovered, every tile on a path of empty
    /// tiles from it ends up uncovered.
    proof fn lemma_cascade_path(self, start: Coordinates, path: Seq<Coordinates>, i: int)
        requires
            self.wf(),
            self.openable(start),
            self.tile(start) is Empty,
            self.cascade_unflagged(start),
            self.settled(),
            self.grid.empty_path(path),
            path[0] == start,
            0 <= i < path.len(),
        ensures
            self.after_uncover(start).status(path[i]) is Uncovered,
        decreases i,
    {
        if i == 0 {
            self.lemma_reaches_start(start);
            self.lemma_with_uncovered(self.uncovered_by(start), start);
        } else {
            self.lemma_cascade_path(start, path, i - 1);
            let shorter = path.take(i + 1);
            assert forall|k: int| 0 <= k < shorter.len() implies self.grid.contains(
                #[trigger] shorter[k],
            ) && self.grid.tile(shorter[k]) is Empty by {
                assert(self.grid.contains(path[k]) && self.grid.tile(path[k]) is Empty);
            }
            assert forall|k: int| 0 <= k < shorter.len() - 1 implies #[trigger] self.grid.empty_link(
                shorter,
                k,
            ) by {
                assert(self.grid.empty_link(path, k));
            }
            assert(self.grid.empty_path(shorter));
            assert(shorter[0] == start && shorter[shorter.len() - 1] == path[i]);
            assert(self.grid.connected(start, path[i]));
            assert(self.grid.contains(path[i - 1]) && self.grid.tile(path[i - 1]) is Empty);
            assert(self.grid.contains(path[i]));
            assert(self.grid.empty_link(path, i - 1));
            self.lemma_cascade_step(start, path[i - 1], path[i]);
        }
    }

    /// An uncover of an empty tile uncovers the whole connected region of
    /// empty tiles around it and the tiles that border on the region,
    /// provided that no flag stands on any of them and that the board is
    /// settled.
    pub proof fn lemma_uncover_opens_the_cascade(self, start: Coordinates, target: Coordinates)
        requires
            self.wf(),
            self.openable(start),
            self.tile(start) is Empty,
            self.cascade_unflagged(start),
            self.settled(),
            self.grid.in_cascade(start, target),
        ensures
            self.after_uncover(start).status(target) is Uncovered,
    {
        if self.grid.connected(start, target) {
            let path = choose|path: Seq<Coordinates>|
                #[trigger] self.grid.empty_path(path) && path[0] == start && path[path.len() - 1]
                    == target;
            self.lemma_cascade_path(start, path, path.len() - 1);
        } else {
            let edge = choose|edge: Coordinates|
                #[trigger] self.grid.connected(start, edge) && edge.adjacent(target);
            let path = choose|path: Seq<Coordinates>|
                #[trigger] self.grid.empty_path(path) && path[0] == start && path[path.len() - 1]
                    == edge;
            self.lemma_cascade_path(start, path, path.len() - 1);
            assert(self.grid.contains(path[path.len() - 1]) && self.grid.tile(
                path[path.len() - 1],
            ) is Empty);
            self.lemma_cascade_step(start, edge, target);
        }
    }

    /// An uncover leaves a settled board settled.
    pub proof fn lemma_uncover_keeps_settled(self, c: Coordinates)
        requires
            self.wf(),
            self.settled(),
        ensures
            self.after_uncover(c).settled(),
    {
        let cells = self.uncovered_by(c);
        let later = self.after_uncover(c);
        assert forall|u: Coordinates, n: Coordinates|
            later.contains(u) && later.contains(n) && later.status(u) is Uncovered && later.tile(
                u,
            ) is Empty && #[trigger] u.adjacent(n) implies !(later.status(n) is Covered) by {
            self.lemma_with_uncovered(cells, u);
            self.lemma_with_uncovered(cells, n);
            if later.status(n) is Covered && cells.contains(u) {
                self.lemma_uncovered_by_openable(c, u);
                self.lemma_reaches_step(c, u, n);
            }
        }
    }

    /// A board with every cell covered is settled and carries no flag.
    pub proof fn lemma_fresh_is_settled(self, start: Coordinates)
        requires
            self.wf(),
            self.fresh(),
        ensures
            self.settled(),
            self.cascade_unflagged(start),
    {
        assert forall|c: Coordinates| self.contains(c) implies (#[trigger] self.status(
            c,
        )) is Covered by {
            self.grid.lemma_index(c);
        }
        assert forall|c: Coordinates| #[trigger]
            self.grid.in_cascade(start, c) implies !self.status(c).flagged() by {
            assert(self.status(c) is Covered);
        }
    }

    /// On a board with every cell covered, the fill from an empty tile
    /// arrives at the whole connected region of empty tiles around it and
    /// at the tiles that border on the region, and nowhere else.
    pub proof fn lemma_fill_is_the_cascade(self, start: Coordinates, target: Coordinates)
        requires
            self.wf(),
            self.fresh(),
            self.contains(start),
            self.tile(start) is Empty,
        ensures
            self.reaches(start, target) <==> self.grid.in_cascade(start, target),
    {
        if self.reaches(start, target) {
            self.lemma_fill_stays_in_the_cascade(start, target);
        }
        if self.grid.in_cascade(start, target) {
            if self.grid.connected(start, target) {
                let path = choose|path: Seq<Coordinates>|
                    #[trigger] self.grid.empty_path(path) && path[0] == start && path[path.len()
                        - 1] == target;
                self.lemma_empty_path_fills(path);
            } else {
                let edge = choose|edge: Coordinates|
                    #[trigger] self.grid.connected(start, edge) && edge.adjacent(target);
                let path = choose|path: Seq<Coordinates>|
                    #[trigger] self.grid.empty_path(path) && path[0] == start && path[path.len()
                        - 1] == edge;
                self.lemma_empty_path_fills(path);
                assert(self.grid.contains(path[path.len() - 1]) && self.grid.tile(
                    path[path.len() - 1],
                ) is Empty);
                self.grid.lemma_index(target);
                self.lemma_reaches_step(start, edge, target);
            }
        }
    }

    /// On a board with every cell covered, the fill runs along every path
    /// of empty tiles.
    pub proof fn lemma_empty_path_fills(self, path: Seq<Coordinates>)
        requires
            self.wf(),
            self.fresh(),
            self.grid.empty_path(path),
        ensures
            self.fill_path(path),
            self.reaches(path[0], path[path.len() - 1]),
    {
        assert forall|i: int| 0 <= i < path.len() implies self.openable(#[trigger] path[i]) by {
            assert(self.grid.contains(path[i]));
            self.grid.lemma_index(path[i]);
        }
        assert forall|i: int| 0 <= i < path.len() - 1 implies #[trigger] self.link(path, i) by {
            assert(self.grid.empty_link(path, i));
            assert(self.grid.contains(path[i]) && self.grid.tile(path[i]) is Empty);
        }
    }

    /// Looking up a screen position undoes the layout: a position in the
    /// square of a cell of the grid is found under that cell, the corner at
    /// which the square starts among them.
    pub proof fn lemma_cell_under_is_the_inverse(self, c: Coordinates, x: int, y: int)
        requires
            self.wf(),
            self.contains(c),
            self.layout.covers(c, x, y),
        ensures
            self.cell_under(x, y) == Some(c),
            self.layout.covers(c, self.layout.cell_origin(c).0, self.layout.cell_origin(c).1),
    {
        let size = self.layout.tile_size as int;
        lemma_fundamental_div_mod_converse(
            x - self.layout.origin_x,
            size,
            c.x as int,
            x - self.layout.origin_x - c.x * size,
        );
        lemma_fundamental_div_mod_converse(
            y - self.layout.origin_y,
            size,
            c.y as int,
            y - self.layout.origin_y - c.y * size,
        );
    }

    /// Whether the round is won does not depend on the status of the mines:
    /// two boards over one grid that agree on every tile without a mine
    /// are both won or both not.
    pub proof fn lemma_cleared_ignores_mines(self, other: BoardView)
        requires
            self.wf(),
            other.wf(),
            self.grid == other.grid,
            forall|c: Coordinates|
                self.contains(c) && !(self.tile(c) is Mine) ==> #[trigger] self.status(c)
                    == other.status(c),
        ensures
            self.cleared() == other.cleared(),
    {
        if self.cleared() {
            assert forall|c: Coordinates|
                other.contains(c) && !(other.tile(c) is Mine) implies (#[trigger] other.status(
                c,
            )) is Uncovered by {
                assert(self.status(c) == other.status(c));
            }
        }
        if other.cleared() {
            assert forall|c: Coordinates|
                self.contains(c) && !(self.tile(c) is Mine) implies (#[trigger] self.status(
                c,
            )) is Uncovered by {
                assert(self.status(c) == other.status(c));
            }
        }
    }
}

} // verus!
