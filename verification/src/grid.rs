//! The board as a mathematical object, and what holds of it.

use crate::cell::next_state;
use vstd::prelude::*;

verus! {

/// The mathematical board: `dim` columns and `dim` rows of cells, held row by
/// row, so that the cell in column `x` and row `y` stands at `x + dim * y`.
pub struct Grid {
    pub dim: nat,
    pub cells: Seq<bool>,
}

/// One for a live cell, nothing for a dead one.
pub open spec fn count(alive: bool) -> nat {
    if alive {
        1
    } else {
        0
    }
}

impl Grid {
    /// The board holds exactly `dim * dim` cells.
    pub open spec fn wf(self) -> bool {
        self.cells.len() == self.dim * self.dim
    }

    /// The board of side `dim` on which nothing lives.
    pub open spec fn empty(dim: nat) -> Grid {
        Grid { dim, cells: Seq::new(dim * dim, |i: int| false) }
    }

    /// Column `x` and row `y` lie on the board.
    pub open spec fn in_bounds(self, x: int, y: int) -> bool {
        0 <= x < self.dim && 0 <= y < self.dim
    }

    /// Where the cell in column `x` and row `y` is stored.
    pub open spec fn index(self, x: int, y: int) -> int {
        x + self.dim * y
    }

    /// The cell in column `x` and row `y` is on the board and alive. Beyond
    /// the edges nothing lives: the board does not wrap around.
    pub open spec fn alive_at(self, x: int, y: int) -> bool {
        self.in_bounds(x, y) && self.cells[self.index(x, y)]
    }

    /// How many of the eight cells around column `x` and row `y` are alive.
    pub open spec fn alive_neighbors(self, x: int, y: int) -> nat {
        count(self.alive_at(x - 1, y - 1)) + count(self.alive_at(x, y - 1)) + count(
            self.alive_at(x + 1, y - 1),
        ) + count(self.alive_at(x - 1, y)) + count(self.alive_at(x + 1, y)) + count(
            self.alive_at(x - 1, y + 1),
        ) + count(self.alive_at(x, y + 1)) + count(self.alive_at(x + 1, y + 1))
    }

    /// The column of the cell stored at `i`.
    pub open spec fn column_of(self, i: int) -> int {
        i % (self.dim as int)
    }

    /// The row of the cell stored at `i`.
    pub open spec fn row_of(self, i: int) -> int {
        i / (self.dim as int)
    }

    /// The live neighbours of the cell stored at `i`.
    pub open spec fn neighbors_of(self, i: int) -> nat {
        self.alive_neighbors(self.column_of(i), self.row_of(i))
    }

    /// The board after the cell in column `x` and row `y` has changed its
    /// state. Every other cell is as before.
    pub open spec fn toggled(self, x: int, y: int) -> Grid {
        Grid {
            dim: self.dim,
            cells: self.cells.update(self.index(x, y), !self.cells[self.index(x, y)]),
        }
    }

    /// The next generation: every cell follows the rule of the game, with its
    /// live neighbours counted on this board, before any cell has changed.
    pub open spec fn step(self) -> Grid {
        Grid {
            dim: self.dim,
            cells: Seq::new(
                self.cells.len(),
                |i: int| next_state(self.cells[i], self.neighbors_of(i) as int),
            ),
        }
    }

    /// The column and row of each live cell among the first `n` stored, in
    /// the order in which the cells are stored.
    pub open spec fn alive_cells_among(self, n: nat) -> Seq<(int, int)>
        decreases n,
    {
        if n == 0 {
            Seq::empty()
        } else {
            let before = self.alive_cells_among((n - 1) as nat);
            if self.cells[n - 1] {
                before.push((self.column_of(n - 1), self.row_of(n - 1)))
            } else {
                before
            }
        }
    }

    /// The column and row of each live cell, in the order in which the cells
    /// are stored.
    pub open spec fn alive_cells(self) -> Seq<(int, int)> {
        self.alive_cells_among(self.cells.len())
    }

    /// A stored position `i` names column `i % dim` of row `i / dim`, which
    /// lies on the board and is stored at `i` again.
    pub proof fn lemma_coords(self, i: int)
        requires
            self.wf(),
            0 <= i < self.cells.len(),
        ensures
            self.dim > 0,
            self.in_bounds(self.column_of(i), self.row_of(i)),
            self.index(self.column_of(i), self.row_of(i)) == i,
    {
        let d = self.dim as int;
        assert(d > 0 && 0 <= i / d < d && i == i % d + d * (i / d) && 0 <= i % d < d)
            by (nonlinear_arith)
            requires
                0 <= i < d * d,
                0 <= d,
        ;
    }

    /// From one row to the next the places are `dim` apart.
    pub proof fn lemma_rows_apart(self, x: int, y: int)
        ensures
            self.index(x, y + 1) == self.index(x, y) + self.dim,
            self.index(x, y - 1) == self.index(x, y) - self.dim,
    {
        let d = self.dim as int;
        assert(d * (y + 1) == d * y + d && d * (y - 1) == d * y - d) by (nonlinear_arith);
    }

    /// A cell on the board is stored within the board's `dim * dim` places, at
    /// a place that names its column and row again.
    pub proof fn lemma_index(self, x: int, y: int)
        requires
            self.wf(),
            self.in_bounds(x, y),
        ensures
            0 <= self.index(x, y) < self.cells.len(),
            self.column_of(self.index(x, y)) == x,
            self.row_of(self.index(x, y)) == y,
    {
        let d = self.dim as int;
        assert(0 <= x + d * y < d * d && (x + d * y) % d == x && (x + d * y) / d == y)
            by (nonlinear_arith)
            requires
                0 <= x < d,
                0 <= y < d,
        ;
    }
}

/// Two places on the board touch: they differ, by at most one column and at
/// most one row.
pub open spec fn adjacent(x: int, y: int, cx: int, cy: int) -> bool {
    &&& (x != cx || y != cy)
    &&& cx - 1 <= x <= cx + 1
    &&& cy - 1 <= y <= cy + 1
}

impl Grid {
    /// On the empty board the cells are `dim * dim` in number, and all dead.
    pub proof fn lemma_empty(dim: nat)
        ensures
            Grid::empty(dim).wf(),
            Grid::empty(dim).dim == dim,
            Grid::empty(dim).cells.len() == dim * dim,
            forall|i: int| 0 <= i < dim * dim ==> !(#[trigger] Grid::empty(dim).cells[i]),
            forall|x: int, y: int| !(#[trigger] Grid::empty(dim).alive_at(x, y)),
    {
        let g = Grid::empty(dim);
        assert forall|x: int, y: int| !(#[trigger] g.alive_at(x, y)) by {
            if g.in_bounds(x, y) {
                g.lemma_index(x, y);
            }
        }
    }

    /// Two cells of the board that are stored at one place are one cell.
    pub proof fn lemma_index_injective(self, x: int, y: int, a: int, b: int)
        requires
            self.wf(),
            self.in_bounds(x, y),
            self.in_bounds(a, b),
            self.index(x, y) == self.index(a, b),
        ensures
            x == a,
            y == b,
    {
        self.lemma_index(x, y);
        self.lemma_index(a, b);
    }

    /// To change the state of one cell changes that cell and no other, and
    /// leaves the board its side.
    pub proof fn lemma_toggle(self, x: int, y: int)
        requires
            self.wf(),
            self.in_bounds(x, y),
        ensures
            self.toggled(x, y).wf(),
            self.toggled(x, y).dim == self.dim,
            self.toggled(x, y).alive_at(x, y) == !self.alive_at(x, y),
            forall|a: int, b: int|
                (a != x || b != y) ==> #[trigger] self.toggled(x, y).alive_at(a, b)
                    == self.alive_at(a, b),
    {
        let t = self.toggled(x, y);
        self.lemma_index(x, y);
        assert forall|a: int, b: int| (a != x || b != y) implies #[trigger] t.alive_at(a, b)
            == self.alive_at(a, b) by {
            if self.in_bounds(a, b) {
                self.lemma_index(a, b);
                if self.index(a, b) == self.index(x, y) {
                    self.lemma_index_injective(x, y, a, b);
                }
            }
        }
    }

    /// To change the state of one cell twice gives the board back as it was.
    pub proof fn lemma_toggle_twice(self, x: int, y: int)
        requires
            self.wf(),
            self.in_bounds(x, y),
        ensures
            self.toggled(x, y).toggled(x, y) == self,
    {
        self.lemma_index(x, y);
        assert(self.toggled(x, y).toggled(x, y).cells =~= self.cells);
    }

    /// Around any place there are at most eight live cells.
    pub proof fn lemma_neighbors_at_most_eight(self, x: int, y: int)
        ensures
            self.alive_neighbors(x, y) <= 8,
    {
    }

    /// A cell on the edge of the board has at most five neighbours on the
    /// board, so never eight live ones.
    pub proof fn lemma_neighbors_on_edge(self, x: int, y: int)
        requires
            self.in_bounds(x, y),
            x == 0 || y == 0 || x == self.dim - 1 || y == self.dim - 1,
        ensures
            self.alive_neighbors(x, y) <= 5,
    {
    }

    /// The cell in the first column of the first row has three neighbours on
    /// the board: the one beside it, the one below it and the one across.
    /// No other place is counted, and these three are stored within the board.
    pub proof fn lemma_neighbors_in_corner(self)
        requires
            self.wf(),
            self.dim >= 2,
        ensures
            self.alive_neighbors(0, 0) == count(self.alive_at(1, 0)) + count(self.alive_at(0, 1))
                + count(self.alive_at(1, 1)),
            self.alive_neighbors(0, 0) <= 3,
            0 <= self.index(1, 0) < self.cells.len(),
            0 <= self.index(0, 1) < self.cells.len(),
            0 <= self.index(1, 1) < self.cells.len(),
    {
        self.lemma_index(1, 0);
        self.lemma_index(0, 1);
        self.lemma_index(1, 1);
    }

    /// Where one cell alone lives, each place that touches it counts one live
    /// neighbour, and every other place, its own included, counts none.
    pub proof fn lemma_neighbors_of_single_cell(self, cx: int, cy: int)
        requires
            self.wf(),
            self.in_bounds(cx, cy),
            forall|x: int, y: int| #[trigger] self.alive_at(x, y) <==> (x == cx && y == cy),
        ensures
            forall|x: int, y: int|
                #![trigger self.alive_neighbors(x, y)]
                self.alive_neighbors(x, y) == count(adjacent(x, y, cx, cy)),
    {
    }

    /// Of the first `n` cells stored, the list of live cells names each live
    /// one and no other, in rising order of their places.
    pub proof fn lemma_alive_cells_among(self, n: nat)
        requires
            self.wf(),
            n <= self.cells.len(),
        ensures
            forall|k: int|
                #![trigger self.alive_cells_among(n)[k]]
                0 <= k < self.alive_cells_among(n).len() ==> {
                    let at = self.alive_cells_among(n)[k];
                    self.alive_at(at.0, at.1) && self.index(at.0, at.1) < n
                },
            forall|i: int|
                #![trigger self.cells[i]]
                0 <= i < n && self.cells[i] ==> self.alive_cells_among(n).contains(
                    (self.column_of(i), self.row_of(i)),
                ),
            forall|k: int, l: int|
                #![trigger self.alive_cells_among(n)[k], self.alive_cells_among(n)[l]]
                0 <= k < l < self.alive_cells_among(n).len() ==> {
                    let first = self.alive_cells_among(n)[k];
                    let second = self.alive_cells_among(n)[l];
                    self.index(first.0, first.1) < self.index(second.0, second.1)
                },
        decreases n,
    {
        if n > 0 {
            let m = (n - 1) as nat;
            let before = self.alive_cells_among(m);
            let now = self.alive_cells_among(n);
            self.lemma_alive_cells_among(m);
            self.lemma_coords(m as int);
            if self.cells[m as int] {
                let last = (self.column_of(m as int), self.row_of(m as int));
                assert(now == before.push(last));
                assert(now[before.len() as int] == last);
                assert forall|i: int|
                    #![trigger self.cells[i]]
                    0 <= i < n && self.cells[i] implies now.contains(
                    (self.column_of(i), self.row_of(i)),
                ) by {
                    if i < m {
                        let k = choose|k: int|
                            0 <= k < before.len() && before[k] == (
                                self.column_of(i),
                                self.row_of(i),
                            );
                        assert(now[k] == before[k]);
                    }
                }
            }
        }
    }

    /// The list of live cells names each live cell of the board and no other
    /// place, each once, in the order in which the cells are stored.
    pub proof fn lemma_alive_cells(self)
        requires
            self.wf(),
        ensures
            forall|x: int, y: int|
                #![trigger self.alive_at(x, y)]
                self.alive_cells().contains((x, y)) <==> self.alive_at(x, y),
            forall|k: int, l: int|
                #![trigger self.alive_cells()[k], self.alive_cells()[l]]
                0 <= k < l < self.alive_cells().len() ==> {
                    let first = self.alive_cells()[k];
                    let second = self.alive_cells()[l];
                    self.index(first.0, first.1) < self.index(second.0, second.1)
                },
    {
        let all = self.alive_cells();
        self.lemma_alive_cells_among(self.cells.len());
        assert forall|x: int, y: int|
            #![trigger self.alive_at(x, y)]
            all.contains((x, y)) <==> self.alive_at(x, y) by {
            if all.contains((x, y)) {
                let k = choose|k: int| 0 <= k < all.len() && all[k] == (x, y);
                assert(self.alive_at(all[k].0, all[k].1));
            }
            if self.alive_at(x, y) {
                self.lemma_index(x, y);
                assert(self.cells[self.index(x, y)]);
            }
        }
    }

    /// In the next generation each cell of the board follows the rule of the
    /// game, by its own state and its live neighbours in this generation. The
    /// board keeps its side.
    pub proof fn lemma_step(self, x: int, y: int)
        requires
            self.wf(),
            self.in_bounds(x, y),
        ensures
            self.step().wf(),
            self.step().dim == self.dim,
            self.step().alive_at(x, y) == next_state(
                self.alive_at(x, y),
                self.alive_neighbors(x, y) as int,
            ),
    {
        self.lemma_index(x, y);
    }

    /// Nothing is born on a board on which nothing lives: the next generation
    /// of such a board is the board itself.
    pub proof fn lemma_step_of_dead_board(self)
        requires
            self.wf(),
            forall|i: int| 0 <= i < self.cells.len() ==> !self.cells[i],
        ensures
            self.step() == self,
    {
        assert forall|x: int, y: int| !(#[trigger] self.alive_at(x, y)) by {
            if self.in_bounds(x, y) {
                self.lemma_index(x, y);
            }
        }
        assert(self.step().cells =~= self.cells);
    }

    /// The empty board stays empty from one generation to the next.
    pub proof fn lemma_step_of_empty(dim: nat)
        ensures
            Grid::empty(dim).step() == Grid::empty(dim),
    {
        Grid::empty(dim).lemma_step_of_dead_board();
    }
}

} // verus!
