//! What a board is, mathematically: a set of live cells together with the
//! bounding box the board caches for it.

use vstd::prelude::*;
use crate::rules::{lemma_alive_next_has_live_company, lemma_empty_stays_empty, next_generation};

verus! {

/// One generation of a board: its live cells and its cached bounding box.
///
/// The box spans `min_x..=max_x` by `min_y..=max_y`. Two generations are equal
/// when their live sets and all four bounds are equal.
pub struct Generation {
    pub live: Set<(int, int)>,
    pub min_x: int,
    pub min_y: int,
    pub max_x: int,
    pub max_y: int,
}

impl Generation {
    /// Whether `(x, y)` lies in the bounding box.
    pub open spec fn in_box(self, x: int, y: int) -> bool {
        self.min_x <= x <= self.max_x && self.min_y <= y <= self.max_y
    }

    /// Whether `(x, y)` lies in the bounding box widened by one cell on every
    /// side.
    pub open spec fn near_box(self, x: int, y: int) -> bool {
        self.min_x - 1 <= x <= self.max_x + 1 && self.min_y - 1 <= y <= self.max_y + 1
    }

    /// Every live cell lies in the bounding box.
    pub open spec fn encloses(self) -> bool {
        forall|c: (int, int)| #[trigger] self.live.contains(c) ==> self.in_box(c.0, c.1)
    }

    /// The bounding box is the smallest one around the live cells: it
    /// encloses them, and each bound is reached by some live cell. With no
    /// live cell, all four bounds are 0.
    pub open spec fn is_tight(self) -> bool {
        if self.live.is_empty() {
            self.min_x == 0 && self.min_y == 0 && self.max_x == 0 && self.max_y == 0
        } else {
            &&& self.encloses()
            &&& exists|c: (int, int)| #[trigger] self.live.contains(c) && c.0 == self.min_x
            &&& exists|c: (int, int)| #[trigger] self.live.contains(c) && c.1 == self.min_y
            &&& exists|c: (int, int)| #[trigger] self.live.contains(c) && c.0 == self.max_x
            &&& exists|c: (int, int)| #[trigger] self.live.contains(c) && c.1 == self.max_y
        }
    }

    /// The bounding box starts at the origin and reaches up to the greatest
    /// coordinates of the live cells: `max_x` is the greatest `x` of a live
    /// cell, or 0 where no live cell has a positive `x`, and likewise `max_y`.
    pub open spec fn is_anchored(self) -> bool {
        &&& self.min_x == 0
        &&& self.min_y == 0
        &&& self.max_x >= 0
        &&& self.max_y >= 0
        &&& forall|c: (int, int)| #[trigger]
            self.live.contains(c) ==> c.0 <= self.max_x && c.1 <= self.max_y
        &&& self.max_x == 0 || exists|c: (int, int)| #[trigger]
            self.live.contains(c) && c.0 == self.max_x
        &&& self.max_y == 0 || exists|c: (int, int)| #[trigger]
            self.live.contains(c) && c.1 == self.max_y
    }

    /// Every cell of the generation that follows has 32-bit signed
    /// coordinates, so that a board can hold it.
    pub open spec fn next_fits(self) -> bool {
        forall|c: (int, int)| #[trigger]
            next_generation(self.live).contains(c) ==> i32::MIN <= c.0 <= i32::MAX && i32::MIN
                <= c.1 <= i32::MAX
    }

    /// The bounding box widened by one cell on every side still has 32-bit
    /// signed coordinates.
    pub open spec fn has_margin(self) -> bool {
        &&& i32::MIN < self.min_x
        &&& i32::MIN < self.min_y
        &&& self.max_x < i32::MAX
        &&& self.max_y < i32::MAX
    }

    /// Whether `after` is the generation that one step makes of this one: its
    /// live cells are those the rule gives, and its bounding box is tight.
    pub open spec fn steps_to(self, after: Generation) -> bool {
        after.live == next_generation(self.live) && after.is_tight()
    }
}

/// The generation with the live cells `live` and the bounding box `bounds`,
/// given as `(min_x, min_y, max_x, max_y)`.
pub open spec fn boxed(live: Set<(int, int)>, bounds: (i32, i32, i32, i32)) -> Generation {
    Generation {
        live,
        min_x: bounds.0 as int,
        min_y: bounds.1 as int,
        max_x: bounds.2 as int,
        max_y: bounds.3 as int,
    }
}

/// The cells that a grid of booleans marks as alive: `(x, y)` for each row
/// index `x` and column index `y` at which the grid holds `true`. Rows may
/// differ in length.
pub open spec fn grid_cells(grid: Seq<Seq<bool>>) -> Set<(int, int)> {
    Set::new(
        |c: (int, int)| 0 <= c.0 < grid.len() && 0 <= c.1 < grid[c.0].len() && grid[c.0][c.1],
    )
}

/// Whether the coordinates of every live cell of the grid fit in 32 bits
/// signed.
pub open spec fn grid_fits(grid: Seq<Seq<bool>>) -> bool {
    forall|c: (int, int)| #[trigger]
        grid_cells(grid).contains(c) ==> c.0 <= i32::MAX && c.1 <= i32::MAX
}

/// A live set has only one tight bounding box.
pub proof fn lemma_tight_box_is_unique(a: Generation, b: Generation)
    requires
        a.live == b.live,
        a.is_tight(),
        b.is_tight(),
    ensures
        a == b,
{
}

/// A live set has only one bounding box anchored at the origin.
pub proof fn lemma_anchored_box_is_unique(a: Generation, b: Generation)
    requires
        a.live == b.live,
        a.is_anchored(),
        b.is_anchored(),
    ensures
        a == b,
{
}

/// A generation has only one successor.
pub proof fn lemma_step_is_deterministic(before: Generation, a: Generation, b: Generation)
    requires
        before.steps_to(a),
        before.steps_to(b),
    ensures
        a == b,
{
    lemma_tight_box_is_unique(a, b);
}

/// Stepping a generation without live cells gives the generation without live
/// cells whose bounding box is all zeros, whatever the box was before.
pub proof fn lemma_empty_steps_to_empty(before: Generation, after: Generation)
    requires
        before.live.is_empty(),
        before.steps_to(after),
    ensures
        after.live.is_empty(),
        after.min_x == 0 && after.min_y == 0 && after.max_x == 0 && after.max_y == 0,
{
    lemma_empty_stays_empty(before.live);
}

/// A step widens the bounding box by at most one cell on each side: unless
/// every cell has died, the new box lies within the old one widened by one.
pub proof fn lemma_step_stays_near(before: Generation, after: Generation)
    requires
        before.encloses(),
        before.steps_to(after),
        !after.live.is_empty(),
    ensures
        before.near_box(after.min_x, after.min_y),
        before.near_box(after.max_x, after.max_y),
{
    lemma_next_generation_is_near(before);
}

/// A board whose bounding box has a margin can hold the generation that
/// follows.
pub proof fn lemma_margin_is_enough(g: Generation)
    requires
        g.encloses(),
        g.has_margin(),
    ensures
        g.next_fits(),
{
    lemma_next_generation_is_near(g);
}

/// Cells are born only next to live cells: every cell of the generation that
/// follows lies in the bounding box widened by one cell on every side.
pub proof fn lemma_next_generation_is_near(g: Generation)
    requires
        g.encloses(),
    ensures
        forall|c: (int, int)| #[trigger]
            next_generation(g.live).contains(c) ==> g.near_box(c.0, c.1),
{
    assert forall|c: (int, int)| #[trigger] next_generation(g.live).contains(c) implies g.near_box(
        c.0,
        c.1,
    ) by {
        lemma_alive_next_has_live_company(g.live, c.0, c.1);
    }
}

} // verus!
