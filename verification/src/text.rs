//! Boards as text: reading a grid from lines, and drawing a fixed window of
//! the board.

use vstd::prelude::*;
use crate::game::LifeGame;

verus! {

/// How many rows of the board a drawing shows.
pub const WINDOW_ROWS: i32 = 50;

/// How many columns of the board a drawing shows.
pub const WINDOW_COLUMNS: i32 = 80;

/// What `char::is_whitespace` returns for `c`: whether Unicode counts the
/// character as white space.
pub uninterp spec fn is_whitespace(c: char) -> bool;

/// Calls `char::is_whitespace`. Taken on trust, not proved: that the answer
/// depends on the character alone, which is all that calling it
/// [`is_whitespace`] claims.
#[verifier::external_body]
fn char_is_whitespace(c: char) -> (blank: bool)
    ensures
        blank == is_whitespace(c),
{
    c.is_whitespace()
}

/// The cells of one line of text: dead where the line has white space, alive
/// at every other character.
pub open spec fn row_of_line(line: Seq<char>) -> Seq<bool> {
    Seq::new(line.len(), |i: int| !is_whitespace(line[i]))
}

/// The grid of some lines of text, one row for each line.
pub open spec fn grid_of_lines(lines: Seq<Seq<char>>) -> Seq<Seq<bool>> {
    Seq::new(lines.len(), |i: int| row_of_line(lines[i]))
}

/// The line that shows row `x` of the window: `#` for a live cell, a space
/// for a dead one, and a line feed at the end.
pub open spec fn drawn_row(live: Set<(int, int)>, x: int) -> Seq<char> {
    Seq::new(
        WINDOW_COLUMNS as nat,
        |y: int| if live.contains((x, y)) { '#' } else { ' ' },
    ).push('\n')
}

/// The first `rows` lines of the window, one after the other.
pub open spec fn drawn_rows(live: Set<(int, int)>, rows: int) -> Seq<char>
    decreases rows,
{
    if rows <= 0 {
        Seq::empty()
    } else {
        drawn_rows(live, rows - 1) + drawn_row(live, rows - 1)
    }
}

/// Reads one line of text as a row of cells.
pub fn parse_line(line: &str) -> (row: Vec<bool>)
    ensures
        row@ == row_of_line(line@),
{
    let mut row: Vec<bool> = Vec::new();
    for c in it: line.chars()
        invariant
            it.seq() == line@,
            row@ == row_of_line(line@.take(it.index())),
    {
        row.push(!char_is_whitespace(c));
    }
    row
}

/// Reads lines of text as a grid of cells, one row for each line.
pub fn parse_grid(lines: &Vec<String>) -> (grid: Vec<Vec<bool>>)
    ensures
        grid.deep_view() == grid_of_lines(lines.deep_view()),
{
    let mut grid: Vec<Vec<bool>> = Vec::new();
    let mut i: usize = 0;
    while i < lines.len()
        invariant
            i <= lines.len(),
            grid.len() == i,
            forall|j: int| 0 <= j < i ==> (#[trigger] grid[j])@ == row_of_line(lines[j]@),
        decreases lines.len() - i,
    {
        grid.push(parse_line(lines[i].as_str()));
        i += 1;
    }
    assert(grid.deep_view() =~~= grid_of_lines(lines.deep_view()));
    grid
}

impl LifeGame {
    /// Draws the window of the board that starts at the origin,
    /// [`WINDOW_ROWS`] rows of [`WINDOW_COLUMNS`] cells each.
    pub fn render(&self) -> (text: String)
        ensures
            text@ == drawn_rows(self@.live, WINDOW_ROWS as int),
    {
        proof {
            reveal_strlit("#");
            reveal_strlit(" ");
            reveal_strlit("\n");
        }
        let mut text = String::new();
        let mut x: i32 = 0;
        while x < WINDOW_ROWS
            invariant
                "#"@ == seq!['#'],
                " "@ == seq![' '],
                "\n"@ == seq!['\n'],
                0 <= x <= WINDOW_ROWS,
                text@ == drawn_rows(self@.live, x as int),
            decreases WINDOW_ROWS - x,
        {
            let ghost above = text@;
            let mut y: i32 = 0;
            while y < WINDOW_COLUMNS
                invariant
                    "#"@ == seq!['#'],
                    " "@ == seq![' '],
                    0 <= x < WINDOW_ROWS,
                    0 <= y <= WINDOW_COLUMNS,
                    text@ == above + drawn_row(self@.live, x as int).take(y as int),
                decreases WINDOW_COLUMNS - y,
            {
                if self.is_alive(x, y) {
                    text.append("#");
                } else {
                    text.append(" ");
                }
                y += 1;
            }
            text.append("\n");
            x += 1;
        }
        text
    }
}

} // verus!
