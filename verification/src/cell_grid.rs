//! The board in memory: a square of cells, stored row by row.

use crate::cell::{next_state, Cell};
use crate::grid::Grid;
use vstd::prelude::*;

verus! {

/// A column or a row that lies beyond the board: `size` is the board's side,
/// `x` and `y` are the column and the row that were asked for.
#[derive(Clone, Copy, Debug, PartialEq, Eq, Structural)]
pub struct OutOfBoundsError {
    pub size: usize,
    pub x: usize,
    pub y: usize,
}

/// Columns and rows held in machine words, read as numbers.
pub open spec fn coordinates(places: Seq<(usize, usize)>) -> Seq<(int, int)> {
    places.map_values(|at: (usize, usize)| (at.0 as int, at.1 as int))
}

/// A board of cells that lives in memory. Its view is a [`Grid`].
#[derive(Debug, PartialEq)]
pub struct CellGrid {
    cells: Vec<Cell>,
    dim: usize,
}

impl View for CellGrid {
    type V = Grid;

    closed spec fn view(&self) -> Grid {
        Grid {
            dim: self.dim as nat,
            cells: Seq::new(self.cells@.len(), |i: int| self.cells@[i].alive),
        }
    }
}

impl CellGrid {
    #[verifier::type_invariant]
    spec fn inv(&self) -> bool {
        self.cells@.len() == self.dim * self.dim
    }

    /// Creates a board of `dim` by `dim` cells, all of them dead. The cells
    /// must fit in memory: a vector holds `isize::MAX` bytes at most.
    pub fn new(dim: usize) -> (grid: CellGrid)
        requires
            dim * dim <= isize::MAX,
        ensures
            grid@ == Grid::empty(dim as nat),
            grid@.wf(),
    {
        let size: usize = dim * dim;
        let mut cells: Vec<Cell> = Vec::with_capacity(size);
        for k in 0..size
            invariant
                cells@.len() == k,
                forall|j: int| 0 <= j < k ==> !cells@[j].alive,
        {
            cells.push(Cell { alive: false });
        }
        let grid = CellGrid { cells, dim };
        assert(grid@.cells =~= Grid::empty(dim as nat).cells);
        grid
    }

    /// Changes the state of the cell in column `x` and row `y`. A column or a
    /// row beyond the board is refused, and the board stays as it is.
    pub fn toggle(&mut self, x: usize, y: usize) -> (result: Result<(), OutOfBoundsError>)
        ensures
            match result {
                Ok(()) => {
                    &&& old(self)@.in_bounds(x as int, y as int)
                    &&& final(self)@ == old(self)@.toggled(x as int, y as int)
                },
                Err(error) => {
                    &&& !old(self)@.in_bounds(x as int, y as int)
                    &&& final(self)@ == old(self)@
                    &&& error.size == old(self)@.dim
                    &&& error.x == x
                    &&& error.y == y
                },
            },
            final(self)@.wf(),
    {
        proof {
            use_type_invariant(&*self);
        }
        if x >= self.dim || y >= self.dim {
            return Err(OutOfBoundsError { size: self.dim, x, y });
        }
        proof {
            self@.lemma_index(x as int, y as int);
            // every stored place fits in a `usize`
            assert(self@.cells.len() == self.cells.len());
        }
        let i = self.to_single_dim(x, y);
        self.cells[i].alive = !self.cells[i].alive;
        assert(self@.cells =~= old(self)@.toggled(x as int, y as int).cells);
        Ok(())
    }

    /// Moves the whole board to the next generation. The live neighbours of
    /// every cell are counted first, on the board as it stands, and only then
    /// does any cell change.
    pub fn update(&mut self)
        ensures
            final(self)@ == old(self)@.step(),
            final(self)@.wf(),
    {
        proof {
            use_type_invariant(&*self);
        }
        let size: usize = self.cells.len();
        let mut alive_neighbors: Vec<u8> = Vec::with_capacity(size);
        for i in 0..size
            invariant
                size == self@.cells.len(),
                alive_neighbors@.len() == i,
                forall|j: int| 0 <= j < i ==> alive_neighbors@[j] == self@.neighbors_of(j),
        {
            alive_neighbors.push(self.get_alive_neighbors(i));
        }
        let ghost before = self@;
        for i in 0..size
            invariant
                size == self.cells@.len(),
                size == self.dim * self.dim,
                size == before.cells.len(),
                size == alive_neighbors@.len(),
                self.dim == before.dim,
                forall|j: int| 0 <= j < size ==> alive_neighbors@[j] == before.neighbors_of(j),
                forall|j: int|
                    0 <= j < i ==> self.cells@[j].alive == next_state(
                        before.cells[j],
                        before.neighbors_of(j) as int,
                    ),
                forall|j: int| i <= j < size ==> self.cells@[j].alive == before.cells[j],
        {
            self.cells[i].update(alive_neighbors[i]);
        }
        assert(self@.cells =~= before.step().cells);
    }

    /// The side of the board: it has as many rows as columns.
    pub fn get_dim(&self) -> (dim: usize)
        ensures
            dim == self@.dim,
            self@.wf(),
    {
        proof {
            use_type_invariant(self);
        }
        self.dim
    }

    /// The state of every cell, in the order in which the cells are stored:
    /// row by row, each row from its first column on.
    pub fn get_states(&self) -> (states: Vec<bool>)
        ensures
            states@ == self@.cells,
            self@.wf(),
    {
        proof {
            use_type_invariant(self);
        }
        let mut states: Vec<bool> = Vec::with_capacity(self.cells.len());
        for i in 0..self.cells.len()
            invariant
                states@.len() == i,
                forall|j: int| 0 <= j < i ==> states@[j] == self.cells@[j].alive,
        {
            states.push(self.cells[i].alive);
        }
        assert(states@ =~= self@.cells);
        states
    }

    /// The column and row of every live cell, in the order in which the
    /// cells are stored: row by row, each row from its first column on.
    pub fn get_alive_cells(&self) -> (alive: Vec<(usize, usize)>)
        ensures
            coordinates(alive@) == self@.alive_cells(),
            self@.wf(),
    {
        proof {
            use_type_invariant(self);
        }
        let mut alive: Vec<(usize, usize)> = Vec::new();
        for i in 0..self.cells.len()
            invariant
                self@.wf(),
                coordinates(alive@) == self@.alive_cells_among(i as nat),
        {
            let ghost found = alive@;
            if self.cells[i].alive {
                proof {
                    self@.lemma_coords(i as int);
                }
                let at = self.to_dual_dim(i);
                alive.push(at);
                assert(coordinates(alive@) =~= coordinates(found).push(
                    (at.0 as int, at.1 as int),
                ));
            }
        }
        alive
    }

    /// Counts the live cells among the up to eight neighbours of the cell
    /// stored at `i`. A cell on an edge of the board has fewer neighbours:
    /// nothing beyond the edge is counted, or read.
    pub fn get_alive_neighbors(&self, i: usize) -> (n: u8)
        requires
            i < self@.cells.len(),
        ensures
            n == self@.neighbors_of(i as int),
            n <= 8,
            self@.wf(),
    {
        let ghost g = self@;
        proof {
            use_type_invariant(self);
            g.lemma_coords(i as int);
            // every stored place fits in a `usize`
            assert(g.cells.len() == self.cells.len());
        }
        let mut n: u8 = 0;
        let (x, y) = self.to_dual_dim(i);
        proof {
            g.lemma_rows_apart(x as int, y as int);
        }
        if x > 0 {
            // Check left
            proof {
                g.lemma_index(x - 1, y as int);
            }
            if self.cells[i - 1].alive {
                n = n + 1;
            }
            // Check above left
            if y > 0 {
                proof {
                    g.lemma_index(x - 1, y - 1);
                }
                if self.cells[i - self.dim - 1].alive {
                    n = n + 1;
                }
            }
            // Check below left
            if y < self.dim - 1 {
                proof {
                    g.lemma_index(x - 1, y + 1);
                    g.lemma_index(x as int, y + 1);
                }
                if self.cells[i + self.dim - 1].alive {
                    n = n + 1;
                }
            }
        }
        if x < self.dim - 1 {
            // Check right
            proof {
                g.lemma_index(x + 1, y as int);
            }
            if self.cells[i + 1].alive {
                n = n + 1;
            }
            // Check above right
            if y > 0 {
                proof {
                    g.lemma_index(x + 1, y - 1);
                }
                if self.cells[i - self.dim + 1].alive {
                    n = n + 1;
                }
            }
            // Check below right
            if y < self.dim - 1 {
                proof {
                    g.lemma_index(x + 1, y + 1);
                }
                if self.cells[i + self.dim + 1].alive {
                    n = n + 1;
                }
            }
        }
        // Check above
        if y > 0 {
            proof {
                g.lemma_index(x as int, y - 1);
            }
            if self.cells[i - self.dim].alive {
                n = n + 1;
            }
        }
        // Check below
        if y < self.dim - 1 {
            proof {
                g.lemma_index(x as int, y + 1);
            }
            if self.cells[i + self.dim].alive {
                n = n + 1;
            }
        }
        n
    }

    /// The place at which the cell in column `x` and row `y` is stored.
    fn to_single_dim(&self, x: usize, y: usize) -> (i: usize)
        requires
            self@.index(x as int, y as int) <= usize::MAX,
        ensures
            i == self@.index(x as int, y as int),
    {
        x + self.dim * y
    }

    /// The column and the row of the cell stored at `i`.
    fn to_dual_dim(&self, i: usize) -> (at: (usize, usize))
        requires
            self@.dim > 0,
        ensures
            at.0 == self@.column_of(i as int),
            at.1 == self@.row_of(i as int),
    {
        (i % self.dim, i / self.dim)
    }
}

} // verus!
