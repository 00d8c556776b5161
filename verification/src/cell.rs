//! One cell and the rule of its survival.

use vstd::prelude::*;

verus! {

/// A single cell of the board.
#[derive(Clone, Copy, Debug, PartialEq, Eq, Structural)]
pub struct Cell {
    pub alive: bool,
}

/// Whether a cell lives in the next generation, given whether it lives now and
/// how many of its neighbours do: a cell with three live neighbours lives, a
/// live cell with two stays alive, every other cell is dead.
pub open spec fn next_state(alive: bool, neighbors: int) -> bool {
    neighbors == 3 || (alive && neighbors == 2)
}

impl Cell {
    /// Moves the cell to the next generation, `n` being the number of its
    /// live neighbours.
    pub fn update(&mut self, n: u8)
        ensures
            final(self).alive == next_state(old(self).alive, n as int),
    {
        self.alive = n == 3 || (self.alive && n == 2);
    }
}

/// The four rules of the game, each read off `next_state`: a live cell with
/// fewer than two live neighbours dies, one with two or three lives on, one
/// with more than three dies, and a dead cell comes to life with exactly three.
pub proof fn lemma_four_rules(alive: bool, neighbors: int)
    ensures
        alive && neighbors < 2 ==> !next_state(alive, neighbors),
        alive && (neighbors == 2 || neighbors == 3) ==> next_state(alive, neighbors),
        alive && neighbors > 3 ==> !next_state(alive, neighbors),
        !alive ==> (next_state(alive, neighbors) <==> neighbors == 3),
{
}

} // verus!
