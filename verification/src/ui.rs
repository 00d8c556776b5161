//! The text that shows a board on a terminal.

use vstd::prelude::*;
use vstd::string::StringExecFns;

verus! {

/// The escape sequence that switches a terminal to bold type.
pub open spec fn bold_text() -> Seq<char> {
    seq!['\x1b', '[', '1', 'm']
}

/// The escape sequence that puts a terminal back to plain type.
pub open spec fn reset_text() -> Seq<char> {
    seq!['\x1b', '[', 'm']
}

/// How a live cell is shown: a bold `O`.
pub open spec fn alive_text() -> Seq<char> {
    bold_text() + seq!['O'] + reset_text()
}

/// How a dead cell is shown: a blank.
pub open spec fn dead_text() -> Seq<char> {
    seq![' ']
}

/// The end of a line on a terminal in raw mode.
pub open spec fn line_break() -> Seq<char> {
    seq!['\r', '\n']
}

/// A line ends after the cell at place `i`: `i` is a multiple of `size`, and
/// not the first place.
pub open spec fn ends_line(i: int, size: int) -> bool {
    i > 0 && i % size == 0
}

/// What is written for the cell at place `i`: the cell itself, and the end of
/// the line where one falls behind it.
pub open spec fn cell_text(alive: bool, i: int, size: int) -> Seq<char> {
    (if alive {
        alive_text()
    } else {
        dead_text()
    }) + (if ends_line(i, size) {
        line_break()
    } else {
        Seq::empty()
    })
}

/// What is written for the first `n` cells, one after the other.
pub open spec fn frame_text_of(grid: Seq<bool>, size: int, n: nat) -> Seq<char> {
    Seq::new(n, |i: int| cell_text(grid[i], i, size)).flatten()
}

/// What is written for a whole board.
pub open spec fn frame_text(grid: Seq<bool>, size: int) -> Seq<char> {
    frame_text_of(grid, size, grid.len())
}

/// The text that termion's `style::Bold` writes through its `Display`.
/// Believed, not proved: it is the control sequence introducer, `ESC [`,
/// followed by `1m`, as termion's source gives it.
#[verifier::external_body]
fn bold() -> (text: String)
    ensures
        text@ == bold_text(),
{
    format!("{}", termion::style::Bold)
}

/// The text that termion's `style::Reset` writes through its `Display`.
/// Believed, not proved: it is the control sequence introducer, `ESC [`,
/// followed by `m`, as termion's source gives it.
#[verifier::external_body]
fn reset() -> (text: String)
    ensures
        text@ == reset_text(),
{
    format!("{}", termion::style::Reset)
}

/// To write one cell more is to append that cell's text.
proof fn lemma_frame_text_grows(grid: Seq<bool>, size: int, n: nat)
    ensures
        frame_text_of(grid, size, n + 1) == frame_text_of(grid, size, n) + cell_text(
            grid[n as int],
            n as int,
            size,
        ),
{
    let cell = |i: int| cell_text(grid[i], i, size);
    assert(Seq::new(n + 1, cell) =~= Seq::new(n, cell).push(cell(n as int)));
    Seq::new(n, cell).lemma_flatten_push(cell(n as int));
}

/// The text that shows a board of rows of `size` cells, given the state of
/// each cell row by row: a bold `O` for a live cell, a blank for a dead one,
/// and a line break behind each cell whose place is a multiple of `size`,
/// the first place apart.
pub fn render(grid: &Vec<bool>, size: u16) -> (repr: String)
    requires
        size > 0 || grid@.len() <= 1,
    ensures
        repr@ == frame_text(grid@, size as int),
{
    let alive_repr = bold().concat("O").concat(reset().as_str());
    let dead_repr = " ";
    proof {
        reveal_strlit("O");
        reveal_strlit(" ");
        reveal_strlit("\r\n");
    }
    let mut repr = String::new();
    for i in 0..grid.len()
        invariant
            size > 0 || grid@.len() <= 1,
            alive_repr@ == alive_text(),
            dead_repr@ == dead_text(),
            "\r\n"@ == line_break(),
            repr@ == frame_text_of(grid@, size as int, i as nat),
    {
        proof {
            lemma_frame_text_grows(grid@, size as int, i as nat);
        }
        if grid[i] {
            repr.append(alive_repr.as_str());
        } else {
            repr.append(dead_repr);
        }
        if i > 0 && i % (size as usize) == 0 {
            repr.append("\r\n");
        }
        assert(repr@ =~= frame_text_of(grid@, size as int, (i + 1) as nat));
    }
    repr
}

} // verus!
