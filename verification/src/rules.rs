//! The life/death rule table and toroidal neighbour addressing, as
//! mathematical functions over a generation `Seq<bool>` laid out in
//! row-major order on a `width x height` torus.

use vstd::prelude::*;

verus! {

/// One if the cell is alive, zero otherwise.
pub open spec fn alive_as_count(b: bool) -> nat {
    if b {
        1
    } else {
        0
    }
}

/// The coordinate just before `x` on a ring of `m` positions.
pub open spec fn wrap_dec(x: int, m: int) -> int {
    if x == 0 {
        m - 1
    } else {
        x - 1
    }
}

/// The coordinate just after `x` on a ring of `m` positions.
pub open spec fn wrap_inc(x: int, m: int) -> int {
    if x == m - 1 {
        0
    } else {
        x + 1
    }
}

/// The cell at `(row, col)` of a row-major generation of width `w`.
pub open spec fn cell_at(s: Seq<bool>, w: int, row: int, col: int) -> bool {
    s[row * w + col]
}

/// How many of the eight toroidal neighbours of `(row, col)` are alive.
pub open spec fn neighbor_count(s: Seq<bool>, w: int, h: int, row: int, col: int) -> nat {
    let north = wrap_dec(row, h);
    let south = wrap_inc(row, h);
    let west = wrap_dec(col, w);
    let east = wrap_inc(col, w);
    alive_as_count(cell_at(s, w, north, west)) + alive_as_count(cell_at(s, w, north, col))
        + alive_as_count(cell_at(s, w, north, east)) + alive_as_count(cell_at(s, w, row, west))
        + alive_as_count(cell_at(s, w, row, east)) + alive_as_count(cell_at(s, w, south, west))
        + alive_as_count(cell_at(s, w, south, col)) + alive_as_count(cell_at(s, w, south, east))
}

/// The rule table, an ordered case match: underpopulation, survival,
/// overpopulation, reproduction, and otherwise no change.
pub open spec fn next_cell(alive: bool, neighbors: nat) -> bool {
    if alive && neighbors < 2 {
        false
    } else if alive && (neighbors == 2 || neighbors == 3) {
        true
    } else if alive && neighbors > 3 {
        false
    } else if !alive && neighbors == 3 {
        true
    } else {
        alive
    }
}

/// One full generation step: every cell advances under the rule table,
/// each reading only the generation before the step.
pub open spec fn step_spec(s: Seq<bool>, w: int, h: int) -> Seq<bool> {
    Seq::new(s.len(), |i: int| next_cell(s[i], neighbor_count(s, w, h, i / w, i % w)))
}

/// `n` generation steps in sequence.
pub open spec fn iterate_spec(s: Seq<bool>, w: int, h: int, n: nat) -> Seq<bool>
    decreases n,
{
    if n == 0 {
        s
    } else {
        step_spec(iterate_spec(s, w, h, (n - 1) as nat), w, h)
    }
}

/// The row-major index reached from `(row, col)` by the offset
/// `(dr, dc)`, wrapped toroidally onto the grid.
pub open spec fn wrapped_cell(row: int, col: int, dr: int, dc: int, w: int, h: int) -> int {
    ((row + dr) % h) * w + ((col + dc) % w)
}

/// A row-major index lies in the grid, and is the origin's index only
/// for the origin itself.
pub proof fn lemma_cell_index_range(w: int, h: int, row: int, col: int)
    requires
        w >= 1,
        h >= 1,
        0 <= row < h,
        0 <= col < w,
    ensures
        0 <= row * w + col < w * h,
        row * w + col == 0 <==> row == 0 && col == 0,
{
    assert(0 <= row * w + col < w * h) by (nonlinear_arith)
        requires
            w >= 1,
            h >= 1,
            0 <= row < h,
            0 <= col < w,
    ;
    assert(row * w + col == 0 <==> row == 0 && col == 0) by (nonlinear_arith)
        requires
            w >= 1,
            0 <= row,
            0 <= col < w,
    ;
}

/// A generation whose cell at `(row, col)` is `a(row, col)`.
pub open spec fn grid_of(w: int, h: int, a: spec_fn(int, int) -> bool) -> Seq<bool> {
    Seq::new((w * h) as nat, |i: int| a(i / w, i % w))
}

/// The eight-neighbour count of `(row, col)`, read off the cell
/// predicate directly.
pub open spec fn neighbors_alive(
    a: spec_fn(int, int) -> bool,
    w: int,
    h: int,
    row: int,
    col: int,
) -> nat {
    let north = wrap_dec(row, h);
    let south = wrap_inc(row, h);
    let west = wrap_dec(col, w);
    let east = wrap_inc(col, w);
    alive_as_count(a(north, west)) + alive_as_count(a(north, col)) + alive_as_count(a(north, east))
        + alive_as_count(a(row, west)) + alive_as_count(a(row, east)) + alive_as_count(
        a(south, west),
    ) + alive_as_count(a(south, col)) + alive_as_count(a(south, east))
}

proof fn lemma_grid_read(w: int, h: int, a: spec_fn(int, int) -> bool, row: int, col: int)
    requires
        w >= 1,
        h >= 1,
        0 <= row < h,
        0 <= col < w,
    ensures
        cell_at(grid_of(w, h, a), w, row, col) == a(row, col),
{
    lemma_cell_index_range(w, h, row, col);
    vstd::arithmetic::div_mod::lemma_fundamental_div_mod_converse(row * w + col, w, row, col);
}

proof fn lemma_grid_neighbor_count(
    w: int,
    h: int,
    a: spec_fn(int, int) -> bool,
    row: int,
    col: int,
)
    requires
        w >= 1,
        h >= 1,
        0 <= row < h,
        0 <= col < w,
    ensures
        neighbor_count(grid_of(w, h, a), w, h, row, col) == neighbors_alive(a, w, h, row, col),
{
    let north = wrap_dec(row, h);
    let south = wrap_inc(row, h);
    let west = wrap_dec(col, w);
    let east = wrap_inc(col, w);
    lemma_grid_read(w, h, a, north, west);
    lemma_grid_read(w, h, a, north, col);
    lemma_grid_read(w, h, a, north, east);
    lemma_grid_read(w, h, a, row, west);
    lemma_grid_read(w, h, a, row, east);
    lemma_grid_read(w, h, a, south, west);
    lemma_grid_read(w, h, a, south, col);
    lemma_grid_read(w, h, a, south, east);
}

/// One step of a generation described by a cell predicate is described
/// by the predicate stepped under the rule table.
proof fn lemma_grid_step(w: int, h: int, a: spec_fn(int, int) -> bool, b: spec_fn(int, int) -> bool)
    requires
        w >= 1,
        h >= 1,
        forall|row: int, col: int|
            0 <= row < h && 0 <= col < w ==> #[trigger] b(row, col) == next_cell(
                a(row, col),
                neighbors_alive(a, w, h, row, col),
            ),
    ensures
        step_spec(grid_of(w, h, a), w, h) == grid_of(w, h, b),
{
    let s = grid_of(w, h, a);
    assert forall|i: int| 0 <= i < w * h implies step_spec(s, w, h)[i] == grid_of(w, h, b)[i] by {
        let row = i / w;
        let col = i % w;
        vstd::arithmetic::div_mod::lemma_mod_bound(i, w);
        vstd::arithmetic::div_mod::lemma_fundamental_div_mod(i, w);
        assert(0 <= row < h) by (nonlinear_arith)
            requires
                i == w * row + col,
                0 <= col < w,
                0 <= i < w * h,
                w >= 1,
                h >= 1,
        ;
        lemma_grid_neighbor_count(w, h, a, row, col);
    }
    assert(step_spec(grid_of(w, h, a), w, h) =~= grid_of(w, h, b));
}

/// The glider shape anchored at `(r, c)`.
pub open spec fn glider_cells(r: int, c: int) -> spec_fn(int, int) -> bool {
    |row: int, col: int|
        {
            ||| (row == r - 1 && col == c - 1)
            ||| (row == r && col == c)
            ||| (row == r && col == c + 1)
            ||| (row == r + 1 && col == c - 1)
            ||| (row == r + 1 && col == c)
        }
}

spec fn glider_phase_1(r: int, c: int) -> spec_fn(int, int) -> bool {
    |row: int, col: int|
        {
            ||| (row == r - 1 && col == c)
            ||| (row == r && col == c + 1)
            ||| (row == r + 1 && col == c - 1)
            ||| (row == r + 1 && col == c)
            ||| (row == r + 1 && col == c + 1)
        }
}

spec fn glider_phase_2(r: int, c: int) -> spec_fn(int, int) -> bool {
    |row: int, col: int|
        {
            ||| (row == r && col == c - 1)
            ||| (row == r && col == c + 1)
            ||| (row == r + 1 && col == c)
            ||| (row == r + 1 && col == c + 1)
            ||| (row == r + 2 && col == c)
        }
}

spec fn glider_phase_3(r: int, c: int) -> spec_fn(int, int) -> bool {
    |row: int, col: int|
        {
            ||| (row == r && col == c + 1)
            ||| (row == r + 1 && col == c - 1)
            ||| (row == r + 1 && col == c + 1)
            ||| (row == r + 2 && col == c)
            ||| (row == r + 2 && col == c + 1)
        }
}

#[verifier::rlimit(60)]
proof fn lemma_glider_step_1(w: int, h: int, r: int, c: int)
    requires
        2 <= r,
        r <= h - 4,
        2 <= c,
        c <= w - 4,
    ensures
        step_spec(grid_of(w, h, glider_cells(r, c)), w, h) == grid_of(w, h, glider_phase_1(r, c)),
{
    let a = glider_cells(r, c);
    let b = glider_phase_1(r, c);
    assert forall|row: int, col: int| 0 <= row < h && 0 <= col < w implies #[trigger] b(row, col)
        == next_cell(a(row, col), neighbors_alive(a, w, h, row, col)) by {}
    lemma_grid_step(w, h, a, b);
}

#[verifier::rlimit(60)]
proof fn lemma_glider_step_2(w: int, h: int, r: int, c: int)
    requires
        2 <= r,
        r <= h - 4,
        2 <= c,
        c <= w - 4,
    ensures
        step_spec(grid_of(w, h, glider_phase_1(r, c)), w, h) == grid_of(w, h, glider_phase_2(r, c)),
{
    let a = glider_phase_1(r, c);
    let b = glider_phase_2(r, c);
    assert forall|row: int, col: int| 0 <= row < h && 0 <= col < w implies #[trigger] b(row, col)
        == next_cell(a(row, col), neighbors_alive(a, w, h, row, col)) by {}
    lemma_grid_step(w, h, a, b);
}

#[verifier::rlimit(60)]
proof fn lemma_glider_step_3(w: int, h: int, r: int, c: int)
    requires
        2 <= r,
        r <= h - 4,
        2 <= c,
        c <= w - 4,
    ensures
        step_spec(grid_of(w, h, glider_phase_2(r, c)), w, h) == grid_of(w, h, glider_phase_3(r, c)),
{
    let a = glider_phase_2(r, c);
    let b = glider_phase_3(r, c);
    assert forall|row: int, col: int| 0 <= row < h && 0 <= col < w implies #[trigger] b(row, col)
        == next_cell(a(row, col), neighbors_alive(a, w, h, row, col)) by {}
    lemma_grid_step(w, h, a, b);
}

#[verifier::rlimit(60)]
proof fn lemma_glider_step_4(w: int, h: int, r: int, c: int)
    requires
        2 <= r,
        r <= h - 4,
        2 <= c,
        c <= w - 4,
    ensures
        step_spec(grid_of(w, h, glider_phase_3(r, c)), w, h) == grid_of(w, h, glider_cells(r + 1, c + 1)),
{
    let a = glider_phase_3(r, c);
    let b = glider_cells(r + 1, c + 1);
    assert forall|row: int, col: int| 0 <= row < h && 0 <= col < w implies #[trigger] b(row, col)
        == next_cell(a(row, col), neighbors_alive(a, w, h, row, col)) by {}
    lemma_grid_step(w, h, a, b);
}

/// Glider invariant: a glider anchored at `(r, c)`, alone on a grid
/// and far enough from the edges that no phase touches them, is after
/// four generation steps the same five-cell shape translated by one
/// row and one column.
pub proof fn lemma_glider_translation(w: int, h: int, r: int, c: int)
    requires
        2 <= r,
        r <= h - 4,
        2 <= c,
        c <= w - 4,
    ensures
        iterate_spec(grid_of(w, h, glider_cells(r, c)), w, h, 4) == grid_of(
            w,
            h,
            glider_cells(r + 1, c + 1),
        ),
{
    lemma_glider_step_1(w, h, r, c);
    lemma_glider_step_2(w, h, r, c);
    lemma_glider_step_3(w, h, r, c);
    lemma_glider_step_4(w, h, r, c);

    let s0 = grid_of(w, h, glider_cells(r, c));
    assert(iterate_spec(s0, w, h, 0) == s0);
    assert(iterate_spec(s0, w, h, 1) == step_spec(iterate_spec(s0, w, h, 0), w, h));
    assert(iterate_spec(s0, w, h, 2) == step_spec(iterate_spec(s0, w, h, 1), w, h));
    assert(iterate_spec(s0, w, h, 3) == step_spec(iterate_spec(s0, w, h, 2), w, h));
    assert(iterate_spec(s0, w, h, 4) == step_spec(iterate_spec(s0, w, h, 3), w, h));
}

/// Toroidal correctness: on a grid holding a single live cell at the
/// origin, each of the three far corners counts that cell, through
/// wraparound, as exactly one live neighbour.
pub proof fn lemma_toroidal_corner_neighbors(s: Seq<bool>, w: int, h: int)
    requires
        w >= 3,
        h >= 3,
        s.len() == w * h,
        s[0],
        forall|i: int| 1 <= i < w * h ==> !s[i],
    ensures
        neighbor_count(s, w, h, h - 1, w - 1) == 1,
        neighbor_count(s, w, h, h - 1, 0) == 1,
        neighbor_count(s, w, h, 0, w - 1) == 1,
{
    assert forall|row: int, col: int| 0 <= row < h && 0 <= col < w implies {
        &&& cell_at(s, w, row, col) == (row == 0 && col == 0)
        &&& alive_as_count(cell_at(s, w, row, col)) == (if row == 0 && col == 0 {
            1int
        } else {
            0int
        })
    } by {
        lemma_cell_index_range(w, h, row, col);
    }
    assert(neighbor_count(s, w, h, h - 1, w - 1) == 1);
    assert(neighbor_count(s, w, h, h - 1, 0) == 1);
    assert(neighbor_count(s, w, h, 0, w - 1) == 1);
}

} // verus!
