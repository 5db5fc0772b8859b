//! A small deterministic generator of pseudo-random numbers, and the draw of
//! distinct cells with it.

use crate::coordinates::Coordinates;
use vstd::prelude::*;

verus! {

pub const MULTIPLIER: u64 = 6364136223846793005;

pub const INCREMENT: u64 = 1442695040888963407;

/// The state that follows `state`.
pub open spec fn advance(state: u64) -> u64 {
    state.wrapping_mul(MULTIPLIER).wrapping_add(INCREMENT)
}

/// The number below `bound` that is drawn in the state `state`.
pub open spec fn drawn(state: u64, bound: nat) -> nat {
    ((advance(state) >> 32) as nat) % bound
}

/// A linear congruential generator; its view is its state.
pub struct Random {
    state: u64,
}

impl View for Random {
    type V = u64;

    closed spec fn view(&self) -> u64 {
        self.state
    }
}

impl Random {
    /// The generator that starts in the state `seed`.
    pub fn new(seed: u64) -> (random: Random)
        ensures
            random@ == seed,
    {
        Random { state: seed }
    }

    /// Draws a number below `bound` and moves on to the next state.
    pub fn below(&mut self, bound: u32) -> (n: u32)
        requires
            bound >= 1,
        ensures
            final(self)@ == advance(old(self)@),
            n == drawn(old(self)@, bound as nat),
            n < bound,
    {
        self.state = self.state.wrapping_mul(MULTIPLIER).wrapping_add(INCREMENT);
        ((self.state >> 32) % (bound as u64)) as u32
    }
}

/// The sequence with the entries at `i` and `j` exchanged.
pub open spec fn swapped(cells: Seq<Coordinates>, i: int, j: int) -> Seq<Coordinates> {
    cells.update(i, cells[j]).update(j, cells[i])
}

/// The sequence after the positions `first` up to `count` have each been
/// exchanged with a position drawn from those not before it.
pub open spec fn shuffled(cells: Seq<Coordinates>, state: u64, first: nat, count: nat) -> Seq<
    Coordinates,
>
    decreases count - first,
{
    if first >= count || first >= cells.len() {
        cells
    } else {
        let j = first + drawn(state, (cells.len() - first) as nat);
        shuffled(swapped(cells, first as int, j as int), advance(state), first + 1, count)
    }
}

/// The `count` cells that are drawn from `cells` with the seed `seed`.
pub open spec fn drawn_cells(cells: Seq<Coordinates>, seed: u64, count: nat) -> Seq<Coordinates> {
    shuffled(cells, seed, 0, count).take(count as int)
}

/// Exchanging two entries keeps the entries and their distinctness.
pub proof fn lemma_swapped(cells: Seq<Coordinates>, i: int, j: int)
    requires
        0 <= i < cells.len(),
        0 <= j < cells.len(),
    ensures
        swapped(cells, i, j).len() == cells.len(),
        cells.no_duplicates() ==> swapped(cells, i, j).no_duplicates(),
        forall|c: Coordinates| #[trigger] swapped(cells, i, j).contains(c) <==> cells.contains(c),
{
    let s = swapped(cells, i, j);
    let at = |k: int|
        if k == i {
            j
        } else if k == j {
            i
        } else {
            k
        };
    assert forall|k: int| 0 <= k < s.len() implies s[k] == cells[at(k)] by {}
    assert forall|c: Coordinates| #[trigger] s.contains(c) <==> cells.contains(c) by {
        if s.contains(c) {
            let k = choose|k: int| 0 <= k < s.len() && s[k] == c;
            assert(cells[at(k)] == c);
        }
        if cells.contains(c) {
            let k = choose|k: int| 0 <= k < cells.len() && cells[k] == c;
            assert(s[at(k)] == c);
        }
    }
    if cells.no_duplicates() {
        assert forall|a: int, b: int| 0 <= a < s.len() && 0 <= b < s.len() && a != b implies s[a]
            != s[b] by {
            assert(s[a] == cells[at(a)]);
            assert(s[b] == cells[at(b)]);
        }
    }
}

/// The draw keeps the entries and their distinctness.
pub proof fn lemma_shuffled(cells: Seq<Coordinates>, state: u64, first: nat, count: nat)
    ensures
        shuffled(cells, state, first, count).len() == cells.len(),
        cells.no_duplicates() ==> shuffled(cells, state, first, count).no_duplicates(),
        forall|c: Coordinates| #[trigger]
            shuffled(cells, state, first, count).contains(c) <==> cells.contains(c),
    decreases count - first,
{
    if first >= count || first >= cells.len() {
    } else {
        let j = first + drawn(state, (cells.len() - first) as nat);
        let next = swapped(cells, first as int, j as int);
        lemma_swapped(cells, first as int, j as int);
        lemma_shuffled(next, advance(state), first + 1, count);
        assert forall|c: Coordinates| #[trigger]
            shuffled(cells, state, first, count).contains(c) <==> cells.contains(c) by {
            assert(next.contains(c) <==> cells.contains(c));
        }
    }
}

/// The cells that are drawn are distinct cells of the sequence.
pub proof fn lemma_drawn_cells(cells: Seq<Coordinates>, seed: u64, count: nat)
    requires
        cells.no_duplicates(),
        count <= cells.len(),
    ensures
        drawn_cells(cells, seed, count).len() == count,
        drawn_cells(cells, seed, count).no_duplicates(),
        forall|c: Coordinates| #[trigger]
            drawn_cells(cells, seed, count).contains(c) ==> cells.contains(c),
{
    let all = shuffled(cells, seed, 0, count);
    let first = drawn_cells(cells, seed, count);
    lemma_shuffled(cells, seed, 0, count);
    assert forall|c: Coordinates| #[trigger] first.contains(c) implies cells.contains(c) by {
        let k = choose|k: int| 0 <= k < first.len() && first[k] == c;
        assert(all[k] == c);
        assert(all.contains(c));
    }
    assert forall|a: int, b: int| 0 <= a < first.len() && 0 <= b < first.len() && a != b implies first[a]
        != first[b] by {
        assert(first[a] == all[a]);
        assert(first[b] == all[b]);
    }
}

/// Draws `count` of the cells with the seed `seed`.
pub fn draw_cells(cells: Vec<Coordinates>, seed: u64, count: usize) -> (chosen: Vec<Coordinates>)
    requires
        count <= cells.len() <= u32::MAX,
    ensures
        chosen@ == drawn_cells(cells@, seed, count as nat),
{
    let ghost given = cells@;
    let mut cells = cells;
    let mut random = Random::new(seed);
    let len = cells.len();
    let mut i: usize = 0;
    while i < count
        invariant
            i <= count <= len,
            len == cells.len(),
            len <= u32::MAX,
            shuffled(given, seed, 0, count as nat) == shuffled(
                cells@,
                random@,
                i as nat,
                count as nat,
            ),
        decreases count - i,
    {
        let offset = random.below((len - i) as u32);
        let j: usize = i + offset as usize;
        let a = cells[i];
        let b = cells[j];
        cells.set(i, b);
        cells.set(j, a);
        i = i + 1;
    }
    cells.truncate(count);
    cells
}

} // verus!
