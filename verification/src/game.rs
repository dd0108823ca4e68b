//! The board: a sparse set of live cells with a cached bounding box.

use vstd::prelude::*;
use crate::cells::CellSet;
use crate::generation::{
    boxed, grid_cells, grid_fits, lemma_margin_is_enough, lemma_next_generation_is_near,
    lemma_step_stays_near, Generation,
};
use crate::rules::{alive, live_neighbors, lives_next, next_generation};

verus! {

/// A board of Conway's Game of Life on an unbounded grid.
///
/// Only the live cells are stored. The bounding box is kept beside them and
/// is part of the board's value: two boards are equal when they have the same
/// live cells and the same four bounds. At all times every live cell lies in
/// the bounding box.
#[derive(Debug)]
pub struct LifeGame {
    board: CellSet,
    min_x: i32,
    min_y: i32,
    max_x: i32,
    max_y: i32,
}

/// The cells that occur in a list of coordinate pairs.
pub open spec fn listed_cells(cells: Seq<(i32, i32)>) -> Set<(int, int)> {
    Set::new(
        |c: (int, int)|
            exists|i: int|
                0 <= i < cells.len() && (#[trigger] cells[i]).0 == c.0 && cells[i].1 == c.1,
    )
}

impl View for LifeGame {
    type V = Generation;

    closed spec fn view(&self) -> Generation {
        Generation {
            live: self.board@,
            min_x: self.min_x as int,
            min_y: self.min_y as int,
            max_x: self.max_x as int,
            max_y: self.max_y as int,
        }
    }
}

impl LifeGame {
    #[verifier::type_invariant]
    spec fn well_formed(&self) -> bool {
        self@.encloses()
    }

    /// A board with the live cells of `state`: row `x`, column `y` of the
    /// grid is the cell `(x, y)`. Its bounding box starts at the origin and
    /// ends at the greatest row and column that hold a live cell.
    pub fn new(state: Vec<Vec<bool>>) -> (game: Self)
        requires
            grid_fits(state.deep_view()),
        ensures
            game@.live == grid_cells(state.deep_view()),
            game@.is_anchored(),
    {
        let ghost grid = state.deep_view();
        let mut board = CellSet::new();
        let mut max_x: i32 = 0;
        let mut max_y: i32 = 0;
        let mut x: usize = 0;
        while x < state.len()
            invariant
                grid == state.deep_view(),
                grid_fits(grid),
                x <= state.len(),
                forall|c: (int, int)| #[trigger]
                    board@.contains(c) <==> grid_cells(grid).contains(c) && c.0 < x,
                reaches(board@, max_x as int, max_y as int),
            decreases state.len() - x,
        {
            let row = &state[x];
            let mut y: usize = 0;
            while y < row.len()
                invariant
                    grid == state.deep_view(),
                    grid_fits(grid),
                    x < state.len(),
                    row == &state[x as int],
                    y <= row.len(),
                    forall|c: (int, int)| #[trigger]
                        board@.contains(c) <==> grid_cells(grid).contains(c) && (c.0 < x || (c.0
                            == x && c.1 < y)),
                    reaches(board@, max_x as int, max_y as int),
                decreases row.len() - y,
            {
                if row[y] {
                    assert(grid_cells(grid).contains((x as int, y as int)));
                    let cell_x: i32 = x as i32;
                    let cell_y: i32 = y as i32;
                    let ghost before = board@;
                    board.insert(cell_x, cell_y);
                    proof {
                        assert(board@.contains((cell_x as int, cell_y as int)));
                        if max_x != 0 {
                            let reached = choose|c: (int, int)| #[trigger]
                                before.contains(c) && c.0 == max_x;
                            assert(board@.contains(reached));
                        }
                        if max_y != 0 {
                            let reached = choose|c: (int, int)| #[trigger]
                                before.contains(c) && c.1 == max_y;
                            assert(board@.contains(reached));
                        }
                    }
                    if cell_x > max_x {
                        max_x = cell_x;
                    }
                    if cell_y > max_y {
                        max_y = cell_y;
                    }
                }
                y += 1;
            }
            x += 1;
        }
        assert(board@ =~= grid_cells(grid));
        LifeGame { board, min_x: 0, min_y: 0, max_x, max_y }
    }

    /// The board that [`LifeGame::new`] makes of `state`, or `None` if a live
    /// cell of `state` has a row or column index beyond `i32::MAX`.
    pub fn try_new(state: Vec<Vec<bool>>) -> (made: Option<Self>)
        ensures
            made is Some <==> grid_fits(state.deep_view()),
            made is Some ==> made->0@.live == grid_cells(state.deep_view())
                && made->0@.is_anchored(),
    {
        if fits(&state) {
            Some(Self::new(state))
        } else {
            None
        }
    }

    /// A board with the given live cells and the given bounding box, or
    /// `None` if one of the cells lies outside the box.
    ///
    /// A cell may be listed more than once; the order does not matter.
    pub fn from_cells(
        cells: &Vec<(i32, i32)>,
        min_x: i32,
        min_y: i32,
        max_x: i32,
        max_y: i32,
    ) -> (made: Option<Self>)
        ensures
            made is Some <==> forall|i: int|
                0 <= i < cells.len() ==> min_x <= (#[trigger] cells[i]).0 <= max_x && min_y
                    <= cells[i].1 <= max_y,
            made is Some ==> made->0@ == boxed(
                listed_cells(cells@),
                (min_x, min_y, max_x, max_y),
            ),
    {
        let mut board = CellSet::new();
        let mut i: usize = 0;
        while i < cells.len()
            invariant
                i <= cells.len(),
                forall|j: int|
                    0 <= j < i ==> min_x <= (#[trigger] cells[j]).0 <= max_x && min_y
                        <= cells[j].1 <= max_y,
                board@ == listed_cells(cells@.take(i as int)),
            decreases cells.len() - i,
        {
            let (x, y) = cells[i];
            if x < min_x || x > max_x || y < min_y || y > max_y {
                return None;
            }
            board.insert(x, y);
            proof {
                lemma_listed_one_more(cells@, i as int);
            }
            i += 1;
        }
        assert(cells@.take(cells.len() as int) == cells@);
        Some(LifeGame { board, min_x, min_y, max_x, max_y })
    }

    /// The least `x` of the bounding box. No live cell lies below it.
    pub fn min_x(&self) -> (bound: i32)
        ensures
            bound == self@.min_x,
            forall|c: (int, int)| #[trigger] self@.live.contains(c) ==> bound <= c.0,
    {
        proof {
            use_type_invariant(self);
        }
        self.min_x
    }

    /// The least `y` of the bounding box. No live cell lies below it.
    pub fn min_y(&self) -> (bound: i32)
        ensures
            bound == self@.min_y,
            forall|c: (int, int)| #[trigger] self@.live.contains(c) ==> bound <= c.1,
    {
        proof {
            use_type_invariant(self);
        }
        self.min_y
    }

    /// The greatest `x` of the bounding box. No live cell lies above it.
    pub fn max_x(&self) -> (bound: i32)
        ensures
            bound == self@.max_x,
            forall|c: (int, int)| #[trigger] self@.live.contains(c) ==> c.0 <= bound,
    {
        proof {
            use_type_invariant(self);
        }
        self.max_x
    }

    /// The greatest `y` of the bounding box. No live cell lies above it.
    pub fn max_y(&self) -> (bound: i32)
        ensures
            bound == self@.max_y,
            forall|c: (int, int)| #[trigger] self@.live.contains(c) ==> c.1 <= bound,
    {
        proof {
            use_type_invariant(self);
        }
        self.max_y
    }

    /// Whether the bounding box can be widened by one cell on every side.
    /// If so, the board can hold the generation that follows, which is what
    /// [`LifeGame::step`] asks for.
    pub fn has_margin(&self) -> (roomy: bool)
        ensures
            roomy == self@.has_margin(),
            roomy ==> self@.next_fits(),
    {
        proof {
            use_type_invariant(self);
            if self@.has_margin() {
                lemma_margin_is_enough(self@);
            }
        }
        i32::MIN < self.min_x && i32::MIN < self.min_y && self.max_x < i32::MAX && self.max_y
            < i32::MAX
    }

    /// Every live cell has 32-bit signed coordinates.
    pub proof fn lemma_live_in_range(&self)
        ensures
            forall|c: (int, int)| #[trigger]
                self@.live.contains(c) ==> i32::MIN <= c.0 <= i32::MAX && i32::MIN <= c.1
                    <= i32::MAX,
    {
        self.board.lemma_in_range();
    }

    /// Whether the cell `(x, y)` is alive.
    pub fn is_alive(&self, x: i32, y: i32) -> (live: bool)
        ensures
            live == self@.live.contains((x as int, y as int)),
    {
        self.board.contains(x, y)
    }

    /// 1 if `(x, y)` is a live cell, 0 if it is dead or lies beyond the
    /// coordinates a cell can have.
    fn count_at(&self, x: i64, y: i64) -> (n: usize)
        ensures
            n == alive(self@.live, x as int, y as int),
    {
        proof {
            self.lemma_live_in_range();
        }
        if -0x8000_0000 <= x && x <= 0x7fff_ffff && -0x8000_0000 <= y && y <= 0x7fff_ffff
            && self.board.contains(x as i32, y as i32) {
            1
        } else {
            0
        }
    }

    /// How many of the eight cells around `(x, y)` are alive.
    ///
    /// The grid has no edge: this holds for every `x` and `y`, negative ones
    /// and the least and the greatest included.
    pub fn count_live_neighbors(&self, x: i32, y: i32) -> (count: usize)
        ensures
            count == live_neighbors(self@.live, x as int, y as int),
    {
        let x: i64 = x as i64;
        let y: i64 = y as i64;
        self.count_at(x - 1, y - 1) + self.count_at(x - 1, y) + self.count_at(x - 1, y + 1)
            + self.count_at(x, y - 1) + self.count_at(x, y + 1) + self.count_at(x + 1, y - 1)
            + self.count_at(x + 1, y) + self.count_at(x + 1, y + 1)
    }

    /// Advances the board by one generation.
    ///
    /// Every cell is judged against the generation before the call. The
    /// bounding box afterwards is the tight one around the new live cells;
    /// unless every cell has died, it lies within the box before the call
    /// widened by one cell on every side.
    ///
    /// The board must be able to hold the new generation: no cell may be
    /// born beyond the 32-bit signed coordinates. A board for which
    /// [`LifeGame::has_margin`] holds meets this.
    pub fn step(&mut self)
        requires
            old(self)@.next_fits(),
        ensures
            old(self)@.steps_to(final(self)@),
            !final(self)@.live.is_empty() ==> old(self)@.near_box(
                final(self)@.min_x,
                final(self)@.min_y,
            ) && old(self)@.near_box(final(self)@.max_x, final(self)@.max_y),
    {
        proof {
            use_type_invariant(&*self);
            lemma_next_generation_is_near(self@);
        }
        let ghost before = self@;
        let low_x: i32 = if self.min_x > i32::MIN { self.min_x - 1 } else { i32::MIN };
        let low_y: i32 = if self.min_y > i32::MIN { self.min_y - 1 } else { i32::MIN };
        let high_x: i32 = if self.max_x < i32::MAX { self.max_x + 1 } else { i32::MAX };
        let high_y: i32 = if self.max_y < i32::MAX { self.max_y + 1 } else { i32::MAX };
        let mut board = CellSet::new();
        let mut x: i64 = low_x as i64;
        while x <= high_x as i64
            invariant
                self@ == before,
                low_x <= x,
                x <= high_x + 1 || x == low_x,
                forall|c: (int, int)| #[trigger]
                    board@.contains(c) <==> lives_next(before.live, c.0, c.1) && low_x <= c.0 < x
                        && low_y <= c.1 <= high_y,
            decreases high_x + 1 - x,
        {
            let mut y: i64 = low_y as i64;
            while y <= high_y as i64
                invariant
                    self@ == before,
                    low_x <= x <= high_x,
                    low_y <= y,
                    y <= high_y + 1 || y == low_y,
                    forall|c: (int, int)| #[trigger]
                        board@.contains(c) <==> lives_next(before.live, c.0, c.1) && low_y <= c.1
                            <= high_y && (low_x <= c.0 < x || (c.0 == x && c.1 < y)),
                decreases high_y + 1 - y,
            {
                let cell_x: i32 = x as i32;
                let cell_y: i32 = y as i32;
                let live_neighbors = self.count_live_neighbors(cell_x, cell_y);
                let lives = if self.board.contains(cell_x, cell_y) {
                    live_neighbors == 2 || live_neighbors == 3
                } else {
                    live_neighbors == 3
                };
                if lives {
                    board.insert(cell_x, cell_y);
                }
                y += 1;
            }
            x += 1;
        }
        assert(board@ =~= next_generation(before.live));
        let mut new_game = LifeGame {
            board,
            min_x: low_x,
            min_y: low_y,
            max_x: high_x,
            max_y: high_y,
        };
        new_game.update_extrema();
        proof {
            if !new_game@.live.is_empty() {
                lemma_step_stays_near(before, new_game@);
            }
        }
        *self = new_game;
    }

    /// Recomputes the bounding box from the live cells.
    fn update_extrema(&mut self)
        ensures
            final(self)@.live == old(self)@.live,
            final(self)@.is_tight(),
    {
        let (min_x, min_y, max_x, max_y) = match self.board.extrema() {
            Some(bounds) => bounds,
            None => (0, 0, 0, 0),
        };
        proof {
            use_type_invariant(&*self);
            assert(boxed(self@.live, (min_x, min_y, max_x, max_y)).encloses());
        }
        self.min_x = min_x;
        self.min_y = min_y;
        self.max_x = max_x;
        self.max_y = max_y;
    }
}

impl Clone for LifeGame {
    /// A board with the same live cells and the same bounding box.
    fn clone(&self) -> (copy: Self)
        ensures
            copy@ == self@,
    {
        proof {
            use_type_invariant(self);
        }
        LifeGame {
            board: self.board.clone(),
            min_x: self.min_x,
            min_y: self.min_y,
            max_x: self.max_x,
            max_y: self.max_y,
        }
    }
}

impl PartialEq for LifeGame {
    /// Whether the two boards have the same live cells and the same bounding
    /// box.
    fn eq(&self, other: &Self) -> (equal: bool) {
        self.min_x == other.min_x && self.min_y == other.min_y && self.max_x == other.max_x
            && self.max_y == other.max_y && self.board == other.board
    }
}

impl Eq for LifeGame {}

impl vstd::std_specs::cmp::PartialEqSpecImpl for LifeGame {
    open spec fn obeys_eq_spec() -> bool {
        true
    }

    open spec fn eq_spec(&self, other: &Self) -> bool {
        self@ == other@
    }
}

/// Whether the row and column index of every live cell of `state` fit in 32
/// bits signed.
fn fits(state: &Vec<Vec<bool>>) -> (ok: bool)
    ensures
        ok == grid_fits(state.deep_view()),
{
    let ghost grid = state.deep_view();
    let mut x: usize = 0;
    while x < state.len()
        invariant
            grid == state.deep_view(),
            x <= state.len(),
            forall|c: (int, int)| #[trigger]
                grid_cells(grid).contains(c) && c.0 < x ==> c.0 <= i32::MAX && c.1 <= i32::MAX,
        decreases state.len() - x,
    {
        let row = &state[x];
        let mut y: usize = 0;
        while y < row.len()
            invariant
                grid == state.deep_view(),
                x < state.len(),
                row == &state[x as int],
                y <= row.len(),
                forall|c: (int, int)| #[trigger]
                    grid_cells(grid).contains(c) && (c.0 < x || (c.0 == x && c.1 < y)) ==> c.0
                        <= i32::MAX && c.1 <= i32::MAX,
            decreases row.len() - y,
        {
            if row[y] && (x > 0x7fff_ffff || y > 0x7fff_ffff) {
                assert(grid_cells(grid).contains((x as int, y as int)));
                return false;
            }
            y += 1;
        }
        x += 1;
    }
    true
}

/// Whether `max_x` and `max_y` are the greatest coordinates of the cells of
/// `live`, each taken as 0 where no cell has a positive one.
spec fn reaches(live: Set<(int, int)>, max_x: int, max_y: int) -> bool {
    &&& 0 <= max_x
    &&& 0 <= max_y
    &&& forall|c: (int, int)| #[trigger] live.contains(c) ==> c.0 <= max_x && c.1 <= max_y
    &&& max_x == 0 || exists|c: (int, int)| #[trigger] live.contains(c) && c.0 == max_x
    &&& max_y == 0 || exists|c: (int, int)| #[trigger] live.contains(c) && c.1 == max_y
}

/// Listing one more pair adds its cell and no other.
proof fn lemma_listed_one_more(cells: Seq<(i32, i32)>, i: int)
    requires
        0 <= i < cells.len(),
    ensures
        listed_cells(cells.take(i + 1)) == listed_cells(cells.take(i)).insert(
            (cells[i].0 as int, cells[i].1 as int),
        ),
{
    let shorter = cells.take(i);
    let longer = cells.take(i + 1);
    let added = (cells[i].0 as int, cells[i].1 as int);
    assert forall|c: (int, int)|
        listed_cells(longer).contains(c) <==> listed_cells(shorter).insert(added).contains(c) by {
        if listed_cells(longer).contains(c) {
            let j = choose|j: int|
                0 <= j < longer.len() && (#[trigger] longer[j]).0 == c.0 && longer[j].1 == c.1;
            if j < i {
                assert(shorter[j] == longer[j]);
            }
        }
        if listed_cells(shorter).contains(c) {
            let j = choose|j: int|
                0 <= j < shorter.len() && (#[trigger] shorter[j]).0 == c.0 && shorter[j].1 == c.1;
            assert(longer[j] == shorter[j]);
        }
        if c == added {
            assert(longer[i] == cells[i]);
        }
    }
    assert(listed_cells(longer) =~= listed_cells(shorter).insert(added));
}

} // verus!
