//! The mathematical model of a bounded, non-wrapping Game of Life grid.
//!
//! A grid is a sequence of rows; each row is a sequence of cells, `true` for
//! alive. Coordinates are `(row, column)` and nothing lies outside the grid.
use vstd::prelude::*;

verus! {

/// Every row of `g` has `w` cells, and there are `h` rows.
pub open spec fn is_rect(g: Seq<Seq<bool>>, h: int, w: int) -> bool {
    &&& g.len() == h
    &&& forall|r: int| 0 <= r < h ==> #[trigger] g[r].len() == w
}

/// `(r, c)` lies on an `h` by `w` grid.
pub open spec fn in_bounds(h: int, w: int, r: int, c: int) -> bool {
    0 <= r < h && 0 <= c < w
}

/// 1 when `(r, c)` lies inside the grid `g` and holds a live cell, else 0.
pub open spec fn cell_value(g: Seq<Seq<bool>>, r: int, c: int) -> int {
    if 0 <= r < g.len() && 0 <= c < g[r].len() && g[r][c] {
        1
    } else {
        0
    }
}

/// 1 when `(r, c)` lies on an `h` by `w` grid, else 0.
pub open spec fn slot_value(h: int, w: int, r: int, c: int) -> int {
    if in_bounds(h, w, r, c) {
        1
    } else {
        0
    }
}

/// The number of live cells among the eight cells around `(r, c)`: the four
/// orthogonal and the four diagonal ones. The cell itself is not among them,
/// and a neighbor that would fall off the grid counts as dead.
pub open spec fn live_neighbors(g: Seq<Seq<bool>>, r: int, c: int) -> int {
    cell_value(g, r - 1, c - 1) + cell_value(g, r - 1, c) + cell_value(g, r - 1, c + 1)
        + cell_value(g, r, c - 1) + cell_value(g, r, c + 1)
        + cell_value(g, r + 1, c - 1) + cell_value(g, r + 1, c) + cell_value(g, r + 1, c + 1)
}

/// The number of the eight surrounding coordinates of `(r, c)` that lie on an
/// `h` by `w` grid: the cells that can be neighbors at all.
pub open spec fn candidate_neighbors(h: int, w: int, r: int, c: int) -> int {
    slot_value(h, w, r - 1, c - 1) + slot_value(h, w, r - 1, c) + slot_value(h, w, r - 1, c + 1)
        + slot_value(h, w, r, c - 1) + slot_value(h, w, r, c + 1)
        + slot_value(h, w, r + 1, c - 1) + slot_value(h, w, r + 1, c) + slot_value(h, w, r + 1, c + 1)
}

/// The rule of the game: a dead cell with exactly three live neighbors is born,
/// a live cell with two or three survives, every other cell is dead.
pub open spec fn next_cell(alive: bool, neighbors: int) -> bool {
    if alive {
        neighbors == 2 || neighbors == 3
    } else {
        neighbors == 3
    }
}

/// The next generation of `g`, every cell computed from `g` as it stands.
pub open spec fn step(g: Seq<Seq<bool>>) -> Seq<Seq<bool>> {
    Seq::new(
        g.len(),
        |r: int| Seq::new(g[r].len(), |c: int| next_cell(g[r][c], live_neighbors(g, r, c))),
    )
}

/// `g` with the cell at `(r, c)` flipped.
pub open spec fn toggled(g: Seq<Seq<bool>>, r: int, c: int) -> Seq<Seq<bool>> {
    g.update(r, g[r].update(c, !g[r][c]))
}

/// `g` with the cell at `(r, c)` set to `alive`.
pub open spec fn with_cell(g: Seq<Seq<bool>>, r: int, c: int, alive: bool) -> Seq<Seq<bool>> {
    g.update(r, g[r].update(c, alive))
}

/// No cell of `g` is alive.
pub open spec fn all_dead(g: Seq<Seq<bool>>) -> bool {
    forall|r: int, c: int| 0 <= r < g.len() && 0 <= c < g[r].len() ==> !#[trigger] g[r][c]
}

/// The cells of `g` that are alive are exactly the four of the square whose
/// top left corner is `(r0, c0)`.
pub open spec fn is_block(g: Seq<Seq<bool>>, r0: int, c0: int) -> bool {
    forall|r: int, c: int|
        0 <= r < g.len() && 0 <= c < g[r].len() ==> (#[trigger] g[r][c] <==> (r0 <= r <= r0 + 1
            && c0 <= c <= c0 + 1))
}

/// A cell has at most eight live neighbors, and whatever the cell itself holds
/// does not change how many it has.
pub proof fn lemma_neighbors_exclude_self(g: Seq<Seq<bool>>, h: int, w: int, r: int, c: int, v: bool)
    requires
        is_rect(g, h, w),
        in_bounds(h, w, r, c),
    ensures
        0 <= live_neighbors(g, r, c) <= 8,
        live_neighbors(g, r, c) <= candidate_neighbors(h, w, r, c),
        live_neighbors(with_cell(g, r, c, v), r, c) == live_neighbors(g, r, c),
{
}

/// On a grid of at least two rows and two columns, a corner cell has three
/// cells that can be its neighbors, a cell on an edge but not in a corner has
/// five, and an interior cell has eight.
pub proof fn lemma_candidate_counts(h: int, w: int, r: int, c: int)
    requires
        h >= 2,
        w >= 2,
        in_bounds(h, w, r, c),
    ensures
        (r == 0 || r == h - 1) && (c == 0 || c == w - 1) ==> candidate_neighbors(h, w, r, c) == 3,
        (r == 0 || r == h - 1) != (c == 0 || c == w - 1) ==> candidate_neighbors(h, w, r, c) == 5,
        0 < r < h - 1 && 0 < c < w - 1 ==> candidate_neighbors(h, w, r, c) == 8,
{
}

/// The next generation of a grid has the same shape as the grid.
pub proof fn lemma_step_keeps_shape(g: Seq<Seq<bool>>, h: int, w: int)
    requires
        is_rect(g, h, w),
    ensures
        is_rect(step(g), h, w),
{
}

/// A grid whose cells are all dead stays so: nothing is born from nothing.
pub proof fn lemma_step_all_dead(g: Seq<Seq<bool>>)
    requires
        all_dead(g),
    ensures
        all_dead(step(g)),
        step(g) == g,
{
    assert forall|r: int, c: int| 0 <= r < g.len() && 0 <= c < g[r].len() implies !#[trigger] step(
        g,
    )[r][c] by {
        assert(live_neighbors(g, r, c) == 0);
    }
    assert forall|r: int| 0 <= r < g.len() implies #[trigger] step(g)[r] =~= g[r] by {
        assert forall|c: int| 0 <= c < g[r].len() implies step(g)[r][c] == g[r][c] by {
            assert(live_neighbors(g, r, c) == 0);
        }
    }
    assert(step(g) =~= g);
}

/// A live cell none of whose neighbors is alive dies in the next generation.
pub proof fn lemma_isolated_cell_dies(g: Seq<Seq<bool>>, r: int, c: int)
    requires
        0 <= r < g.len(),
        0 <= c < g[r].len(),
        live_neighbors(g, r, c) == 0,
    ensures
        !step(g)[r][c],
{
}

/// A square of four live cells on an otherwise dead grid is still: each of its
/// cells has three live neighbors and survives, and no dead cell has exactly
/// three and comes to life.
pub proof fn lemma_block_still_life(g: Seq<Seq<bool>>, h: int, w: int, r0: int, c0: int)
    requires
        is_rect(g, h, w),
        in_bounds(h, w, r0, c0),
        in_bounds(h, w, r0 + 1, c0 + 1),
        is_block(g, r0, c0),
    ensures
        step(g) == g,
{
    assert forall|r: int| 0 <= r < h implies #[trigger] step(g)[r] =~= g[r] by {
        assert forall|c: int| 0 <= c < w implies step(g)[r][c] == g[r][c] by {
            assert(g[r][c] <==> (r0 <= r <= r0 + 1 && c0 <= c <= c0 + 1));
            assert(forall|dr: int, dc: int|
                -1 <= dr <= 1 && -1 <= dc <= 1 ==> #[trigger] cell_value(g, r + dr, c + dc) == if in_bounds(
                    h,
                    w,
                    r + dr,
                    c + dc,
                ) && r0 <= r + dr <= r0 + 1 && c0 <= c + dc <= c0 + 1 {
                    1int
                } else {
                    0int
                });
        }
    }
    assert(step(g) =~= g);
}

/// Flipping the same cell twice gives back the grid.
pub proof fn lemma_toggle_involution(g: Seq<Seq<bool>>, r: int, c: int)
    requires
        0 <= r < g.len(),
        0 <= c < g[r].len(),
    ensures
        toggled(toggled(g, r, c), r, c) == g,
{
    assert(toggled(toggled(g, r, c), r, c)[r] =~= g[r]);
    assert(toggled(toggled(g, r, c), r, c) =~= g);
}

} // verus!
