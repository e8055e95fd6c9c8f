//! The simulation state: a fixed-size board, its generation counter and
//! whether it is running or being edited.
use vstd::prelude::*;

use crate::grid::{cell_value, in_bounds, is_rect, live_neighbors, next_cell, step, toggled, with_cell};

verus! {

/// Columns of the board.
pub const CELLS_WIDTH: usize = 90;

/// Rows of the board.
pub const CELLS_HEIGHT: usize = 60;

/// Width of the window, in pixels.
pub const SCREEN_WIDTH: usize = 1200;

/// Height of the window, in pixels.
pub const SCREEN_HEIGHT: usize = 800;


/// The cell index that pixel `p` falls in, where `screen` pixels hold `cells`
/// cells side by side: `p` divided by the size of one cell, rounded down.
pub open spec fn pixel_to_cell(p: int, cells: int, screen: int) -> int {
    (p * cells) / screen
}

/// Computes `pixel_to_cell` without forming the product `p * cells`.
fn scale_down(p: usize, cells: usize, screen: usize) -> (r: usize)
    requires
        0 < cells <= screen <= 0x1_0000,
    ensures
        r == pixel_to_cell(p as int, cells as int, screen as int),
{
    let q = p / screen;
    let m = p % screen;
    proof {
        let (pi, ci, si, qi, mi) = (p as int, cells as int, screen as int, q as int, m as int);
        assert(pi == qi * si + mi && 0 <= mi < si) by {
            vstd::arithmetic::div_mod::lemma_fundamental_div_mod(pi, si);
        }
        assert(pi * ci == (qi * ci) * si + mi * ci) by (nonlinear_arith)
            requires
                pi == qi * si + mi,
        ;
        assert(0 <= mi * ci < si * ci <= 0x1_0000_0000) by (nonlinear_arith)
            requires
                0 <= mi < si,
                0 < ci <= si <= 0x1_0000,
        ;
        assert(qi * ci <= pi) by (nonlinear_arith)
            requires
                pi == qi * si + mi,
                0 <= mi,
                0 <= qi,
                0 < ci <= si,
        ;
        vstd::arithmetic::div_mod::lemma_hoist_over_denominator(mi * ci, qi * ci, si as nat);
        assert(pi * ci <= si * pi) by (nonlinear_arith)
            requires
                0 <= pi,
                ci <= si,
        ;
        vstd::arithmetic::div_mod::lemma_div_is_ordered(pi * ci, si * pi, si);
        vstd::arithmetic::div_mod::lemma_div_multiples_vanish(pi, si);
    }
    q * cells + m * cells / screen
}

/// The `(row, column)` of the cell under the pixel `(x, y)` of the window;
/// it may lie off the board when the pixel lies off the window.
pub fn cell_at_pixel(x: usize, y: usize) -> (cell: (usize, usize))
    ensures
        cell.0 == pixel_to_cell(y as int, CELLS_HEIGHT as int, SCREEN_HEIGHT as int),
        cell.1 == pixel_to_cell(x as int, CELLS_WIDTH as int, SCREEN_WIDTH as int),
{
    (scale_down(y, CELLS_HEIGHT, SCREEN_HEIGHT), scale_down(x, CELLS_WIDTH, SCREEN_WIDTH))
}

/// A coordinate that lies off the board.
#[derive(Debug, Clone, Copy, PartialEq, Eq, Structural)]
pub struct OutOfRange {
    pub row: usize,
    pub col: usize,
}

/// The state of the game: the board in row-major order, how many generations
/// have passed, and whether the simulation runs (`true`) or the board is being
/// edited (`false`).
#[derive(Clone, Copy)]
pub struct MainGame {
    pub board: [[bool; CELLS_WIDTH]; CELLS_HEIGHT],
    pub cycle: usize,
    pub started: bool,
}

impl MainGame {
    /// The board as a sequence of rows.
    pub open spec fn cells(&self) -> Seq<Seq<bool>> {
        Seq::new(CELLS_HEIGHT as nat, |r: int| self.board[r]@)
    }

    /// A stopped game at generation 0 whose cells are all dead.
    pub fn new() -> (g: MainGame)
        ensures
            g.cycle == 0,
            !g.started,
            is_rect(g.cells(), CELLS_HEIGHT as int, CELLS_WIDTH as int),
            forall|r: int, c: int|
                in_bounds(CELLS_HEIGHT as int, CELLS_WIDTH as int, r, c) ==> !#[trigger] g.cells()[r][c],
    {
        let b = [[false; CELLS_WIDTH]; CELLS_HEIGHT];
        MainGame { board: b, cycle: 0, started: false }
    }

    /// 1 when the cell at `(r, c)` is alive, else 0.
    fn live_at(&self, r: usize, c: usize) -> (v: usize)
        requires
            r < CELLS_HEIGHT,
            c < CELLS_WIDTH,
        ensures
            v == cell_value(self.cells(), r as int, c as int),
    {
        if self.board[r][c] {
            1
        } else {
            0
        }
    }

    /// How many of the up to eight cells around `coordinates` (row, column)
    /// are alive; coordinates off the board are not looked at.
    pub fn get_neighbors(&self, coordinates: (usize, usize)) -> (n: usize)
        requires
            coordinates.0 < CELLS_HEIGHT,
            coordinates.1 < CELLS_WIDTH,
        ensures
            n == live_neighbors(self.cells(), coordinates.0 as int, coordinates.1 as int),
    {
        let (r, c) = coordinates;
        let last_row = self.board.len() - 1;
        let last_col = self.board[0].len() - 1;
        let mut living_neighbors: usize = 0;

        if r > 0 {
            living_neighbors += self.live_at(r - 1, c);
            if c > 0 {
                living_neighbors += self.live_at(r - 1, c - 1);
            }
            if c < last_col {
                living_neighbors += self.live_at(r - 1, c + 1);
            }
        }
        if c > 0 {
            living_neighbors += self.live_at(r, c - 1);
            if r < last_row {
                living_neighbors += self.live_at(r + 1, c - 1);
            }
        }
        if r < last_row {
            living_neighbors += self.live_at(r + 1, c);
            if c < last_col {
                living_neighbors += self.live_at(r + 1, c + 1);
            }
        }
        if c < last_col {
            living_neighbors += self.live_at(r, c + 1);
        }
        living_neighbors
    }


    /// Flips the cell in column `x` of row `y`.
    pub fn draw_pixel(&mut self, x: usize, y: usize)
        requires
            y < CELLS_HEIGHT,
            x < CELLS_WIDTH,
        ensures
            final(self).cells() == toggled(old(self).cells(), y as int, x as int),
            final(self).cycle == old(self).cycle,
            final(self).started == old(self).started,
    {
        self.board[y][x] = !self.board[y][x];
        assert(self.cells() =~= toggled(old(self).cells(), y as int, x as int));
    }

    /// Flips the cell at `(row, col)`, or reports a coordinate off the board
    /// and changes nothing.
    pub fn toggle_cell(&mut self, row: usize, col: usize) -> (r: Result<(), OutOfRange>)
        ensures
            r is Ok <==> in_bounds(CELLS_HEIGHT as int, CELLS_WIDTH as int, row as int, col as int),
            r is Ok ==> final(self).cells() == toggled(old(self).cells(), row as int, col as int),
            r is Err ==> r == Err::<(), OutOfRange>(OutOfRange { row, col }) && *final(self) == *old(self),
            final(self).cycle == old(self).cycle,
            final(self).started == old(self).started,
    {
        if row >= CELLS_HEIGHT || col >= CELLS_WIDTH {
            return Err(OutOfRange { row, col });
        }
        self.draw_pixel(col, row);
        Ok(())
    }

    /// Sets the cell at `(row, col)` to `alive`, or reports a coordinate off
    /// the board and changes nothing.
    pub fn set_cell(&mut self, row: usize, col: usize, alive: bool) -> (r: Result<(), OutOfRange>)
        ensures
            r is Ok <==> in_bounds(CELLS_HEIGHT as int, CELLS_WIDTH as int, row as int, col as int),
            r is Ok ==> final(self).cells() == with_cell(old(self).cells(), row as int, col as int, alive),
            r is Err ==> r == Err::<(), OutOfRange>(OutOfRange { row, col }) && *final(self) == *old(self),
            final(self).cycle == old(self).cycle,
            final(self).started == old(self).started,
    {
        if row >= CELLS_HEIGHT || col >= CELLS_WIDTH {
            return Err(OutOfRange { row, col });
        }
        self.board[row][col] = alive;
        assert(self.cells() =~= with_cell(old(self).cells(), row as int, col as int, alive));
        Ok(())
    }

    /// Switches between running and editing.
    pub fn toggle_running(&mut self)
        ensures
            final(self).started == !old(self).started,
            final(self).cells() == old(self).cells(),
            final(self).cycle == old(self).cycle,
    {
        self.started = !self.started;
    }


    /// What a click at pixel `(x, y)` does: while the game is being edited it
    /// sets the cell under the pixel to `alive` (the left button brings a cell
    /// to life, the right one kills it); while it runs the click is ignored.
    /// A pixel whose cell lies off the board is reported and changes nothing.
    pub fn edit_at_pixel(&mut self, x: usize, y: usize, alive: bool) -> (r: Result<(), OutOfRange>)
        ensures
            ({
                let row = pixel_to_cell(y as int, CELLS_HEIGHT as int, SCREEN_HEIGHT as int);
                let col = pixel_to_cell(x as int, CELLS_WIDTH as int, SCREEN_WIDTH as int);
                &&& old(self).started ==> r is Ok && *final(self) == *old(self)
                &&& !old(self).started ==> (r is Ok <==> in_bounds(
                    CELLS_HEIGHT as int,
                    CELLS_WIDTH as int,
                    row,
                    col,
                ))
                &&& !old(self).started && r is Ok ==> final(self).cells() == with_cell(
                    old(self).cells(),
                    row,
                    col,
                    alive,
                )
                &&& r is Err ==> r == Err::<(), OutOfRange>(
                    OutOfRange { row: row as usize, col: col as usize },
                ) && *final(self) == *old(self)
            }),
            final(self).cycle == old(self).cycle,
            final(self).started == old(self).started,
    {
        if self.started {
            return Ok(());
        }
        let (row, col) = cell_at_pixel(x, y);
        self.set_cell(row, col, alive)
    }

    /// One tick of the driver's clock: a running game advances by one
    /// generation and `true` is returned; a game being edited stays as it is.
    pub fn tick(&mut self) -> (advanced: bool)
        ensures
            advanced == old(self).started,
            advanced ==> final(self).cells() == step(old(self).cells()) && final(self).cycle == if old(
                self,
            ).cycle < usize::MAX {
                old(self).cycle + 1
            } else {
                old(self).cycle as int
            },
            !advanced ==> *final(self) == *old(self),
            final(self).started == old(self).started,
    {
        if self.started {
            self.advance_step();
            true
        } else {
            false
        }
    }

    /// Advances the board by one generation, every cell computed from the
    /// board as it stood before the call, and counts the generation; the
    /// counter stays at `usize::MAX` once there.
    pub fn advance_step(&mut self)
        ensures
            final(self).cells() == step(old(self).cells()),
            final(self).cycle == if old(self).cycle < usize::MAX {
                old(self).cycle + 1
            } else {
                old(self).cycle as int
            },
            final(self).started == old(self).started,
    {
        let ghost g = self.cells();
        let mut new_board = self.board;
        let mut i: usize = 0;
        while i < CELLS_HEIGHT
            invariant
                i <= CELLS_HEIGHT,
                g == self.cells(),
                forall|k: int| 0 <= k < i ==> #[trigger] new_board[k]@ == step(g)[k],
            decreases CELLS_HEIGHT - i,
        {
            let mut line = self.board[i];
            let mut j: usize = 0;
            while j < CELLS_WIDTH
                invariant
                    i < CELLS_HEIGHT,
                    j <= CELLS_WIDTH,
                    g == self.cells(),
                    forall|k: int| 0 <= k < j ==> #[trigger] line@[k] == step(g)[i as int][k],
                decreases CELLS_WIDTH - j,
            {
                let living_neighbors = self.get_neighbors((i, j));
                let cell = self.board[i][j];
                let next = if !cell {
                    living_neighbors == 3
                } else {
                    2 <= living_neighbors && living_neighbors <= 3
                };
                assert(next == next_cell(g[i as int][j as int], living_neighbors as int));
                line[j] = next;
                j += 1;
            }
            assert(line@ =~= step(g)[i as int]);
            new_board[i] = line;
            i += 1;
        }
        self.board = new_board;
        assert(self.cells() =~= step(g));
        self.cycle = self.cycle.saturating_add(1);
    }
}

} // verus!
