//! Grid coordinates and the eight-connected neighbourhood.

use vstd::prelude::*;

verus! {

/// A cell of the grid: column `x`, row `y`.
#[derive(Clone, Copy, Debug, PartialEq, Eq, Hash, Structural)]
pub struct Coordinates {
    pub x: u16,
    pub y: u16,
}

impl Coordinates {
    /// Two distinct cells touch when they differ by at most one column and one row.
    pub open spec fn adjacent(self, other: Coordinates) -> bool {
        &&& self != other
        &&& -1 <= self.x - other.x <= 1
        &&& -1 <= self.y - other.y <= 1
    }

    /// The cell lies inside a grid of the given extent.
    pub open spec fn within(self, width: nat, height: nat) -> bool {
        self.x < width && self.y < height
    }

    /// Column and row of the `k`-th candidate around this cell. The candidates
    /// are numbered row by row from 0 to 8; number 4 is the cell itself.
    pub open spec fn candidate(self, k: int) -> (int, int) {
        (self.x + k % 3 - 1, self.y + k / 3 - 1)
    }

    /// The candidate number at which `other` stands around this cell.
    pub open spec fn slot(self, other: Coordinates) -> int {
        (other.y - self.y + 1) * 3 + (other.x - self.x + 1)
    }

    /// The neighbours among the first `k` candidates that lie inside the grid,
    /// in candidate order.
    pub open spec fn neighbors_upto(self, width: nat, height: nat, k: nat) -> Seq<Coordinates>
        decreases k,
    {
        if k == 0 {
            Seq::empty()
        } else {
            let rest = self.neighbors_upto(width, height, (k - 1) as nat);
            let (x, y) = self.candidate(k - 1);
            if k - 1 != 4 && 0 <= x < width && 0 <= y < height && x <= u16::MAX && y <= u16::MAX {
                rest.push(Coordinates { x: x as u16, y: y as u16 })
            } else {
                rest
            }
        }
    }

    /// All neighbours inside the grid, row by row.
    pub open spec fn neighbor_cells(self, width: nat, height: nat) -> Seq<Coordinates> {
        self.neighbors_upto(width, height, 9)
    }

    pub fn new(x: u16, y: u16) -> (c: Coordinates)
        ensures
            c.x == x,
            c.y == y,
    {
        Coordinates { x, y }
    }

    pub fn is_adjacent(&self, other: &Coordinates) -> (r: bool)
        ensures
            r == self.adjacent(*other),
    {
        let dx: i32 = self.x as i32 - other.x as i32;
        let dy: i32 = self.y as i32 - other.y as i32;
        !(dx == 0 && dy == 0) && -1 <= dx && dx <= 1 && -1 <= dy && dy <= 1
    }

    pub fn in_bounds(&self, width: u16, height: u16) -> (r: bool)
        ensures
            r == self.within(width as nat, height as nat),
    {
        self.x < width && self.y < height
    }

    /// The neighbours of this cell inside a `width` by `height` grid.
    pub fn neighbors(&self, width: u16, height: u16) -> (cells: Vec<Coordinates>)
        ensures
            cells@ == self.neighbor_cells(width as nat, height as nat),
            cells@.no_duplicates(),
            forall|c: Coordinates| #[trigger]
                cells@.contains(c) <==> c.within(width as nat, height as nat) && self.adjacent(c),
    {
        let mut cells: Vec<Coordinates> = Vec::new();
        let mut k: u8 = 0;
        while k < 9
            invariant
                k <= 9,
                cells@ == self.neighbors_upto(width as nat, height as nat, k as nat),
            decreases 9 - k,
        {
            let x: i32 = self.x as i32 + (k % 3) as i32 - 1;
            let y: i32 = self.y as i32 + (k / 3) as i32 - 1;
            if k != 4 && 0 <= x && x < width as i32 && 0 <= y && y < height as i32 {
                cells.push(Coordinates { x: x as u16, y: y as u16 });
            }
            k = k + 1;
        }
        proof {
            self.lemma_neighbor_cells(width as nat, height as nat);
        }
        cells
    }

    /// Membership in a prefix of the neighbour list.
    pub proof fn lemma_neighbors_upto(self, width: nat, height: nat, k: nat)
        requires
            k <= 9,
        ensures
            self.neighbors_upto(width, height, k).no_duplicates(),
            forall|c: Coordinates| #[trigger]
                self.neighbors_upto(width, height, k).contains(c) <==> {
                    &&& c.within(width, height)
                    &&& self.adjacent(c)
                    &&& self.slot(c) < k
                },
        decreases k,
    {
        if k > 0 {
            let j = (k - 1) as nat;
            self.lemma_neighbors_upto(width, height, j);
            let rest = self.neighbors_upto(width, height, j);
            let full = self.neighbors_upto(width, height, k);
            let (x, y) = self.candidate(j as int);
            if j != 4 && 0 <= x < width && 0 <= y < height && x <= u16::MAX && y <= u16::MAX {
                let n = Coordinates { x: x as u16, y: y as u16 };
                assert(full == rest.push(n));
                assert(self.slot(n) == j);
                assert(!rest.contains(n));
                assert forall|c: Coordinates| #[trigger] full.contains(c) <==> {
                    &&& c.within(width, height)
                    &&& self.adjacent(c)
                    &&& self.slot(c) < k
                } by {
                    if full.contains(c) {
                        let i = choose|i: int| 0 <= i < full.len() && full[i] == c;
                        if i < rest.len() {
                            assert(rest[i] == c);
                            assert(rest.contains(c));
                        }
                    }
                    if c.within(width, height) && self.adjacent(c) && self.slot(c) < k {
                        if self.slot(c) == j {
                            assert(c == n);
                            assert(full[rest.len() as int] == c);
                        } else {
                            assert(rest.contains(c));
                            let i = choose|i: int| 0 <= i < rest.len() && rest[i] == c;
                            assert(full[i] == c);
                        }
                    }
                }
                assert forall|a: int, b: int| 0 <= a < full.len() && 0 <= b < full.len() && a != b
                    implies full[a] != full[b] by {
                    if a == rest.len() {
                        assert(rest[b] == full[b]);
                        assert(rest.contains(rest[b]));
                    } else if b == rest.len() {
                        assert(rest[a] == full[a]);
                        assert(rest.contains(rest[a]));
                    }
                }
            } else {
                assert(full == rest);
                assert forall|c: Coordinates|
                    c.within(width, height) && self.adjacent(c) implies #[trigger] self.slot(c)
                    != j by {}
                assert forall|c: Coordinates| #[trigger] full.contains(c) <==> {
                    &&& c.within(width, height)
                    &&& self.adjacent(c)
                    &&& self.slot(c) < k
                } by {
                    assert(rest.contains(c) <==> full.contains(c));
                }
            }
        }
    }

    /// The neighbour list holds exactly the adjacent cells inside the grid, each once.
    pub proof fn lemma_neighbor_cells(self, width: nat, height: nat)
        ensures
            self.neighbor_cells(width, height).no_duplicates(),
            forall|c: Coordinates| #[trigger]
                self.neighbor_cells(width, height).contains(c) <==> c.within(width, height)
                    && self.adjacent(c),
    {
        self.lemma_neighbors_upto(width, height, 9);
        assert forall|c: Coordinates| self.adjacent(c) implies #[trigger] self.slot(c) < 9 by {}
    }
}

} // verus!
