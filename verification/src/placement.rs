//! Where mines may be placed: every cell but those around a safe start.

use crate::coordinates::Coordinates;
use crate::grid::{bit, cell_at, lemma_area_fits, lemma_row_major, lemma_row_major_inverse};
use vstd::prelude::*;

verus! {

/// The cell lies in the three by three block around the safe cell, if one is given.
pub open spec fn shielded(safe: Option<Coordinates>, c: Coordinates) -> bool {
    match safe {
        Some(s) => -1 <= c.x - s.x <= 1 && -1 <= c.y - s.y <= 1,
        None => false,
    }
}

/// How many of the positions 0 up to `extent` differ from `center` by at most one.
pub open spec fn span(center: int, extent: int) -> int {
    let low = if center >= 1 {
        center - 1
    } else {
        0
    };
    let high = if extent < center + 2 {
        extent
    } else {
        center + 2
    };
    if high > low {
        high - low
    } else {
        0
    }
}

/// The number of cells of the grid that lie in the block around the safe
/// cell, the block being cut off at the edges of the grid.
pub open spec fn shield_size(width: nat, height: nat, safe: Option<Coordinates>) -> nat {
    match safe {
        Some(s) => (span(s.x as int, width as int) * span(s.y as int, height as int)) as nat,
        None => 0,
    }
}

/// The cells among the first `k` of the grid, row by row, that are not shielded.
pub open spec fn eligible_upto(width: nat, safe: Option<Coordinates>, k: nat) -> Seq<Coordinates>
    decreases k,
{
    if k == 0 {
        Seq::empty()
    } else {
        let rest = eligible_upto(width, safe, (k - 1) as nat);
        let c = cell_at(width, k - 1);
        if shielded(safe, c) {
            rest
        } else {
            rest.push(c)
        }
    }
}

/// The cells of the grid on which a mine may be placed, row by row.
pub open spec fn eligible(width: nat, height: nat, safe: Option<Coordinates>) -> Seq<Coordinates> {
    eligible_upto(width, safe, width * height)
}

/// The number of shielded cells among the first `k` of the grid.
pub open spec fn shielded_upto(width: nat, safe: Option<Coordinates>, k: nat) -> nat
    decreases k,
{
    if k == 0 {
        0
    } else {
        shielded_upto(width, safe, (k - 1) as nat) + bit(shielded(safe, cell_at(width, k - 1)))
    }
}

/// The mines fit: at least one cell stays free, and there are enough cells
/// outside the block around the safe cell.
pub open spec fn generable(width: nat, height: nat, mine_count: nat, safe: Option<Coordinates>) -> bool {
    &&& mine_count < width * height
    &&& mine_count + shield_size(width, height, safe) <= width * height
}

/// A prefix of the eligible cells holds exactly the cells before its end
/// that are not shielded, each once.
pub proof fn lemma_eligible_upto(width: nat, height: nat, safe: Option<Coordinates>, k: nat)
    requires
        width <= u16::MAX,
        height <= u16::MAX,
        k <= width * height,
    ensures
        eligible_upto(width, safe, k).no_duplicates(),
        forall|c: Coordinates| #[trigger]
            eligible_upto(width, safe, k).contains(c) <==> {
                &&& c.within(width, height)
                &&& !shielded(safe, c)
                &&& c.y * width + c.x < k
            },
        eligible_upto(width, safe, k).len() + shielded_upto(width, safe, k) == k,
    decreases k,
{
    if k > 0 {
        let j = (k - 1) as nat;
        lemma_eligible_upto(width, height, safe, j);
        lemma_row_major_inverse(width, height, j as int);
        let rest = eligible_upto(width, safe, j);
        let full = eligible_upto(width, safe, k);
        let n = cell_at(width, j as int);
        assert(n.within(width, height));
        assert(n.y * width + n.x == j);
        assert forall|c: Coordinates| c.within(width, height) implies (c.y * width + c.x == j
            <==> c == n) by {
            lemma_row_major(width, height, c.x as int, c.y as int);
        }
        if shielded(safe, n) {
            assert(full == rest);
            assert forall|c: Coordinates| #[trigger] full.contains(c) <==> {
                &&& c.within(width, height)
                &&& !shielded(safe, c)
                &&& c.y * width + c.x < k
            } by {
                assert(rest.contains(c) <==> full.contains(c));
            }
        } else {
            assert(full == rest.push(n));
            assert(!rest.contains(n));
            assert forall|c: Coordinates| #[trigger] full.contains(c) <==> {
                &&& c.within(width, height)
                &&& !shielded(safe, c)
                &&& c.y * width + c.x < k
            } by {
                if full.contains(c) {
                    let i = choose|i: int| 0 <= i < full.len() && full[i] == c;
                    if i < rest.len() {
                        assert(rest[i] == c);
                        assert(rest.contains(c));
                    }
                }
                if c.within(width, height) && !shielded(safe, c) && c.y * width + c.x < k {
                    if c == n {
                        assert(full[rest.len() as int] == c);
                    } else {
                        assert(rest.contains(c));
                        let i = choose|i: int| 0 <= i < rest.len() && rest[i] == c;
                        assert(full[i] == c);
                    }
                }
            }
            assert forall|a: int, b: int|
                0 <= a < full.len() && 0 <= b < full.len() && a != b implies full[a]
                != full[b] by {
                if a == rest.len() {
                    assert(rest[b] == full[b]);
                    assert(rest.contains(rest[b]));
                } else if b == rest.len() {
                    assert(rest[a] == full[a]);
                    assert(rest.contains(rest[a]));
                }
            }
        }
    }
}

/// Up to column `x` of row `y`, the shielded cells are those of the
/// shielded rows before and those of this row, if it is shielded.
pub proof fn lemma_shielded_upto(width: nat, height: nat, s: Coordinates, x: int, y: int)
    requires
        width <= u16::MAX,
        height <= u16::MAX,
        0 <= x <= width,
        0 <= y <= height,
        y < height || x == 0,
    ensures
        shielded_upto(width, Some(s), (y * width + x) as nat) == span(s.y as int, y) * span(
            s.x as int,
            width as int,
        ) + if -1 <= y - s.y <= 1 {
            span(s.x as int, x)
        } else {
            0
        },
        y * width + x >= 0,
    decreases y, x,
{
    let safe = Some(s);
    let cols = span(s.x as int, width as int);
    assert(y * width >= 0) by (nonlinear_arith)
        requires
            y >= 0,
            width >= 0,
    ;
    if x > 0 {
        lemma_shielded_upto(width, height, s, x - 1, y);
        lemma_row_major(width, height, x - 1, y);
        let k = (y * width + x) as nat;
        let c = cell_at(width, k - 1);
        assert(c.x == x - 1 && c.y == y);
        assert(shielded_upto(width, safe, k) == shielded_upto(width, safe, (k - 1) as nat) + bit(
            shielded(safe, c),
        ));
        assert(span(s.x as int, x) == span(s.x as int, x - 1) + bit(-1 <= (x - 1) - s.x <= 1));
    } else if y > 0 {
        lemma_shielded_upto(width, height, s, width as int, y - 1);
        assert((y - 1) * width + width == y * width) by (nonlinear_arith);
        let rows = span(s.y as int, y - 1);
        if -1 <= (y - 1) - s.y <= 1 {
            assert(span(s.y as int, y) == rows + 1);
            assert((rows + 1) * cols == rows * cols + cols) by (nonlinear_arith);
        } else {
            assert(span(s.y as int, y) == rows);
        }
        assert(span(s.x as int, 0) == 0);
    } else {
        assert(y * width == 0) by (nonlinear_arith)
            requires
                y == 0,
        ;
        assert(span(s.x as int, 0) == 0);
        assert(span(s.y as int, 0) * cols == 0) by (nonlinear_arith)
            requires
                span(s.y as int, 0) == 0,
        ;
    }
}

/// Without a safe cell no cell is shielded.
pub proof fn lemma_unshielded_upto(width: nat, k: nat)
    ensures
        shielded_upto(width, None, k) == 0,
    decreases k,
{
    if k > 0 {
        lemma_unshielded_upto(width, (k - 1) as nat);
    }
}

/// The eligible cells are the cells of the grid outside the block around
/// the safe cell, each once; with those inside the block they make up the grid.
pub proof fn lemma_eligible(width: nat, height: nat, safe: Option<Coordinates>)
    requires
        width <= u16::MAX,
        height <= u16::MAX,
    ensures
        eligible(width, height, safe).no_duplicates(),
        forall|c: Coordinates| #[trigger]
            eligible(width, height, safe).contains(c) <==> c.within(width, height) && !shielded(
                safe,
                c,
            ),
        eligible(width, height, safe).len() + shield_size(width, height, safe) == width * height,
{
    let area = width * height;
    lemma_eligible_upto(width, height, safe, area);
    assert forall|c: Coordinates| c.within(width, height) implies c.y * width + c.x < area by {
        lemma_row_major(width, height, c.x as int, c.y as int);
    }
    match safe {
        Some(s) => {
            lemma_shielded_upto(width, height, s, 0, height as int);
            assert(height * width == width * height) by (nonlinear_arith);
            let cols = span(s.x as int, width as int);
            let rows = span(s.y as int, height as int);
            assert(rows * cols == cols * rows) by (nonlinear_arith);
            assert(cols * rows >= 0) by (nonlinear_arith)
                requires
                    cols >= 0,
                    rows >= 0,
            ;
        },
        None => {
            lemma_unshielded_upto(width, area);
        },
    }
}

fn is_shielded(safe: Option<Coordinates>, c: Coordinates) -> (r: bool)
    ensures
        r == shielded(safe, c),
{
    match safe {
        Some(s) => {
            let dx: i32 = c.x as i32 - s.x as i32;
            let dy: i32 = c.y as i32 - s.y as i32;
            -1 <= dx && dx <= 1 && -1 <= dy && dy <= 1
        },
        None => false,
    }
}

/// The cells of the grid on which a mine may be placed, row by row.
pub fn eligible_cells(width: u16, height: u16, safe: Option<Coordinates>) -> (cells: Vec<
    Coordinates,
>)
    ensures
        cells@ == eligible(width as nat, height as nat, safe),
        cells.len() + shield_size(width as nat, height as nat, safe) == width * height,
{
    let ghost w = width as nat;
    let ghost h = height as nat;
    let mut cells: Vec<Coordinates> = Vec::new();
    let mut y: u16 = 0;
    proof {
        lemma_area_fits(w, h);
    }
    while y < height
        invariant
            y <= height,
            w == width,
            h == height,
            y * w >= 0,
            cells@ == eligible_upto(w, safe, (y * w) as nat),
        decreases height - y,
    {
        let mut x: u16 = 0;
        while x < width
            invariant
                x <= width,
                y < height,
                w == width,
                h == height,
                y * w + x >= 0,
                cells@ == eligible_upto(w, safe, (y * w + x) as nat),
            decreases width - x,
        {
            let c = Coordinates { x, y };
            proof {
                lemma_row_major(w, h, x as int, y as int);
                assert(cell_at(w, y * w + x) == c);
            }
            if !is_shielded(safe, c) {
                cells.push(c);
            }
            x = x + 1;
        }
        assert((y + 1) * w == y * w + w) by (nonlinear_arith);
        y = y + 1;
    }
    proof {
        assert(h * w == w * h) by (nonlinear_arith);
        lemma_eligible(w, h, safe);
    }
    cells
}

} // verus!
