//! The rule of Conway's Game of Life, stated over an unbounded grid.
//!
//! A generation is a set of live cells; a cell is a pair of integers `(x, y)`.
//! Nothing here is executable: these are the definitions the board's
//! contracts are written in, and the facts about them that the board relies on.

use vstd::prelude::*;

verus! {

/// 1 if the cell `(x, y)` is alive in `live`, 0 otherwise.
pub open spec fn alive(live: Set<(int, int)>, x: int, y: int) -> nat {
    if live.contains((x, y)) {
        1
    } else {
        0
    }
}

/// How many of the eight cells around `(x, y)` are alive in `live`.
///
/// The cell `(x, y)` itself is not counted.
pub open spec fn live_neighbors(live: Set<(int, int)>, x: int, y: int) -> nat {
    alive(live, x - 1, y - 1) + alive(live, x - 1, y) + alive(live, x - 1, y + 1) + alive(
        live,
        x,
        y - 1,
    ) + alive(live, x, y + 1) + alive(live, x + 1, y - 1) + alive(live, x + 1, y) + alive(
        live,
        x + 1,
        y + 1,
    )
}

/// Whether the cell `(x, y)` is alive in the generation that follows `live`.
///
/// A live cell stays alive with two or three live neighbours; a dead cell
/// comes alive with exactly three.
pub open spec fn lives_next(live: Set<(int, int)>, x: int, y: int) -> bool {
    let n = live_neighbors(live, x, y);
    if live.contains((x, y)) {
        n == 2 || n == 3
    } else {
        n == 3
    }
}

/// The generation that follows `live`.
pub open spec fn next_generation(live: Set<(int, int)>) -> Set<(int, int)> {
    Set::new(|c: (int, int)| lives_next(live, c.0, c.1))
}

/// The eight cells around `(x, y)`.
pub open spec fn neighborhood(x: int, y: int) -> Set<(int, int)> {
    set![
        (x - 1, y - 1),
        (x - 1, y),
        (x - 1, y + 1),
        (x, y - 1),
        (x, y + 1),
        (x + 1, y - 1),
        (x + 1, y),
        (x + 1, y + 1),
    ]
}

/// Adding a cell to a finite set of cells adds 1 to the number of its live
/// cells if the new cell is alive, and nothing otherwise.
proof fn lemma_count_one_more(cells: Set<(int, int)>, live: Set<(int, int)>, c: (int, int))
    requires
        cells.finite(),
        !cells.contains(c),
    ensures
        cells.insert(c).finite(),
        cells.insert(c).intersect(live).len() == cells.intersect(live).len() + alive(
            live,
            c.0,
            c.1,
        ),
{
    vstd::set_lib::lemma_len_intersect(cells, live);
    if live.contains(c) {
        assert(cells.insert(c).intersect(live) =~= cells.intersect(live).insert(c));
    } else {
        assert(cells.insert(c).intersect(live) =~= cells.intersect(live));
    }
}

/// The count of live neighbours is the number of cells of the neighbourhood
/// that are alive, wherever on the grid the cell lies.
pub proof fn lemma_live_neighbors_counts_neighborhood(live: Set<(int, int)>, x: int, y: int)
    ensures
        neighborhood(x, y).finite(),
        neighborhood(x, y).len() == 8,
        live_neighbors(live, x, y) == neighborhood(x, y).intersect(live).len(),
{
    let none = Set::<(int, int)>::empty();
    assert(none.intersect(live) =~= none);
    let one = none.insert((x - 1, y - 1));
    lemma_count_one_more(none, live, (x - 1, y - 1));
    let two = one.insert((x - 1, y));
    lemma_count_one_more(one, live, (x - 1, y));
    let three = two.insert((x - 1, y + 1));
    lemma_count_one_more(two, live, (x - 1, y + 1));
    let four = three.insert((x, y - 1));
    lemma_count_one_more(three, live, (x, y - 1));
    let five = four.insert((x, y + 1));
    lemma_count_one_more(four, live, (x, y + 1));
    let six = five.insert((x + 1, y - 1));
    lemma_count_one_more(five, live, (x + 1, y - 1));
    let seven = six.insert((x + 1, y));
    lemma_count_one_more(six, live, (x + 1, y));
    let eight = seven.insert((x + 1, y + 1));
    lemma_count_one_more(seven, live, (x + 1, y + 1));
    assert(eight =~= neighborhood(x, y));
}

/// A cell that is alive in the next generation has, in this one, a live cell
/// in the three-by-three block around it.
pub proof fn lemma_alive_next_has_live_company(live: Set<(int, int)>, x: int, y: int)
    requires
        lives_next(live, x, y),
    ensures
        exists|d: (int, int)|
            live.contains(d) && x - 1 <= d.0 <= x + 1 && y - 1 <= d.1 <= y + 1,
{
}

/// With no live cell, the next generation has none either.
pub proof fn lemma_empty_stays_empty(live: Set<(int, int)>)
    requires
        live.is_empty(),
    ensures
        next_generation(live).is_empty(),
{
}

} // verus!
