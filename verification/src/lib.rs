//! A toroidal-grid cellular automaton engine.
//!
//! The grid wraps at its edges, cell state advances under the classic
//! two-or-three-neighbour life rule, and the engine derives the counts
//! and integer layout of two geometry buffers (grid lines and alive-cell
//! rectangles) that a host rasterizer consumes.

pub mod bitset;
pub mod cell_buffer;
pub mod graph;
pub mod rules;

use crate::bitset::bit_view;
use crate::cell_buffer::contains_index;
use crate::cell_buffer::seed_alive;
use crate::cell_buffer::seed_seq;
use crate::cell_buffer::CellBuffer;
use crate::graph::alive_indices;
use crate::graph::pop_count;
use crate::graph::CellRect;
use crate::graph::Graph;
use crate::graph::GridLine;
use crate::rules::cell_at;
use crate::rules::iterate_spec;
use crate::rules::lemma_cell_index_range;
use crate::rules::wrapped_cell;
use crate::rules::neighbor_count;
use crate::rules::next_cell;
use crate::rules::step_spec;
use crate::rules::wrap_dec;
use crate::rules::wrap_inc;
use vstd::prelude::*;
use vstd::string::StringExecFns;

verus! {

/// The glyph a rendered cell shows: a filled square when alive, an
/// open one when dead.
pub open spec fn glyph(alive: bool) -> Seq<char> {
    if alive {
        "\u{25fc}"@
    } else {
        "\u{25fb}"@
    }
}

/// The glyphs of the first `ncols` cells of row `row`.
pub open spec fn render_row(s: Seq<bool>, w: int, row: int, ncols: int) -> Seq<char>
    decreases ncols,
{
    if ncols <= 0 {
        Seq::empty()
    } else {
        render_row(s, w, row, ncols - 1) + glyph(cell_at(s, w, row, ncols - 1))
    }
}

/// The first `nrows` rendered rows, each of `w` glyphs and ended by a
/// newline.
pub open spec fn render_rows(s: Seq<bool>, w: int, nrows: int) -> Seq<char>
    decreases nrows,
{
    if nrows <= 0 {
        Seq::empty()
    } else {
        render_rows(s, w, nrows - 1) + render_row(s, w, nrows - 1, w) + "\n"@
    }
}

/// The full textual dump of a generation: one glyph per cell, rows
/// separated by newlines.
pub open spec fn render_spec(s: Seq<bool>, w: int, h: int) -> Seq<char> {
    render_rows(s, w, h)
}

/// The composed engine: grid dimensions, the double-buffered cell
/// state, and the geometry generator.
pub struct Universe {
    cell_buffer: CellBuffer,
    graph: Graph,
    height: u32,
    width: u32,
}

impl Universe {
    pub closed spec fn grid_width(&self) -> u32 {
        self.width
    }

    pub closed spec fn grid_height(&self) -> u32 {
        self.height
    }

    /// The authoritative generation, one bit per cell in row-major
    /// order.
    pub closed spec fn cells_spec(&self) -> Seq<bool> {
        self.cell_buffer.active_view()
    }

    /// Elements of the last fetched grid line buffer.
    pub closed spec fn line_count_spec(&self) -> u32 {
        self.graph.line_count_spec()
    }

    /// Elements of the last fetched cell rectangle buffer.
    pub closed spec fn rect_count_spec(&self) -> u32 {
        self.graph.cell_count_spec()
    }

    /// Grid dimensions are positive, the cell state matches them, and
    /// the geometry counts cannot overflow a `u32`.
    pub closed spec fn wf(&self) -> bool {
        &&& self.width >= 1
        &&& self.height >= 1
        &&& self.cell_buffer.wf()
        &&& self.cell_buffer.size() == (self.width as int) * (self.height as int)
        &&& 12 * (self.width as int) * (self.height as int) <= u32::MAX
        &&& 4 * ((self.width as int) + (self.height as int) + 2) <= u32::MAX
    }

    /// A fresh universe: `width * height` cells seeded with the
    /// deterministic rule, and nothing fetched from the geometry
    /// generator yet.
    pub fn new(width: u32, height: u32) -> (r: Universe)
        requires
            width >= 1,
            height >= 1,
            12 * (width as int) * (height as int) <= u32::MAX,
            4 * ((width as int) + (height as int) + 2) <= u32::MAX,
        ensures
            r.wf(),
            r.grid_width() == width,
            r.grid_height() == height,
            r.cells_spec() == seed_seq(((width as int) * (height as int)) as nat),
            r.line_count_spec() == 0,
            r.rect_count_spec() == 0,
    {
        proof {
            lemma_dims_fit(width as int, height as int);
        }
        let size = (width * height) as usize;
        let cell_buffer = CellBuffer::new(size);
        let graph = Graph::new();

        Universe { cell_buffer, graph, height, width }
    }

    pub fn width(&self) -> (r: u32)
        ensures
            r == self.grid_width(),
    {
        self.width
    }

    pub fn height(&self) -> (r: u32)
        ensures
            r == self.grid_height(),
    {
        self.height
    }

    /// Changes the grid width. The cell state is reallocated and
    /// reseeded: a resize is a hard reset.
    pub fn set_width(&mut self, width: u32)
        requires
            old(self).wf(),
            width >= 1,
            12 * (width as int) * (old(self).grid_height() as int) <= u32::MAX,
            4 * ((width as int) + (old(self).grid_height() as int) + 2) <= u32::MAX,
        ensures
            final(self).wf(),
            final(self).grid_width() == width,
            final(self).grid_height() == old(self).grid_height(),
            final(self).cells_spec() == seed_seq(
                ((width as int) * (old(self).grid_height() as int)) as nat,
            ),
            final(self).line_count_spec() == old(self).line_count_spec(),
            final(self).rect_count_spec() == old(self).rect_count_spec(),
    {
        proof {
            lemma_dims_fit(width as int, self.height as int);
        }
        self.width = width;
        self.cell_buffer.update_size((width * self.height) as usize);
    }

    /// Changes the grid height. The cell state is reallocated and
    /// reseeded: a resize is a hard reset.
    pub fn set_height(&mut self, height: u32)
        requires
            old(self).wf(),
            height >= 1,
            12 * (old(self).grid_width() as int) * (height as int) <= u32::MAX,
            4 * ((old(self).grid_width() as int) + (height as int) + 2) <= u32::MAX,
        ensures
            final(self).wf(),
            final(self).grid_width() == old(self).grid_width(),
            final(self).grid_height() == height,
            final(self).cells_spec() == seed_seq(
                ((old(self).grid_width() as int) * (height as int)) as nat,
            ),
            final(self).line_count_spec() == old(self).line_count_spec(),
            final(self).rect_count_spec() == old(self).rect_count_spec(),
    {
        proof {
            lemma_dims_fit(self.width as int, height as int);
        }
        self.height = height;
        self.cell_buffer.update_size((self.width * height) as usize);
    }

    /// The dead and alive values of the entire universe, borrowed
    /// zero-copy from the active bit-set.
    pub fn get_cells(&self) -> (r: &fixedbitset::FixedBitSet)
        ensures
            bit_view(*r) == self.cells_spec(),
    {
        let (active, _) = self.cell_buffer.buffers();
        active
    }

    /// The row-major index of `(row, column)`.
    fn get_index(&self, row: u32, column: u32) -> (r: usize)
        requires
            self.wf(),
            row < self.grid_height(),
            column < self.grid_width(),
        ensures
            r == (row as int) * (self.grid_width() as int) + (column as int),
            r < (self.grid_width() as int) * (self.grid_height() as int),
    {
        proof {
            lemma_cell_index_range(self.width as int, self.height as int, row as int, column as int);
            lemma_dims_fit(self.width as int, self.height as int);
        }
        (row * self.width + column) as usize
    }

    /// Copies the current generation into scratch with one cell
    /// flipped, then commits.
    pub fn toggle_cell(&mut self, idx: usize)
        requires
            old(self).wf(),
            (idx as int) < (old(self).grid_width() as int) * (old(self).grid_height() as int),
        ensures
            final(self).wf(),
            final(self).grid_width() == old(self).grid_width(),
            final(self).grid_height() == old(self).grid_height(),
            final(self).cells_spec() == old(self).cells_spec().update(
                idx as int,
                !old(self).cells_spec()[idx as int],
            ),
            final(self).line_count_spec() == old(self).line_count_spec(),
            final(self).rect_count_spec() == old(self).rect_count_spec(),
    {
        self.cell_buffer.toggle_cell(idx);
    }

    /// Replaces the active generation with the given per-cell coin
    /// flips, one per cell, without going through the rule engine.
    pub fn random_reset(&mut self, flips: &Vec<bool>)
        requires
            old(self).wf(),
            flips@.len() == (old(self).grid_width() as int) * (old(self).grid_height() as int),
        ensures
            final(self).wf(),
            final(self).grid_width() == old(self).grid_width(),
            final(self).grid_height() == old(self).grid_height(),
            final(self).cells_spec() == flips@,
            final(self).line_count_spec() == old(self).line_count_spec(),
            final(self).rect_count_spec() == old(self).rect_count_spec(),
    {
        proof {
            self.cell_buffer.lemma_wf_sizes();
        }
        let n = flips.len();
        let mut i: usize = 0;
        while i < n
            invariant
                i <= n,
                n == flips@.len(),
                self.wf(),
                self.width == old(self).width,
                self.height == old(self).height,
                self.graph == old(self).graph,
                self.cell_buffer.active_view() == old(self).cells_spec(),
                self.cell_buffer.scratch_view().len() == n,
                n == self.cell_buffer.size(),
                forall|j: int| 0 <= j < i ==> self.cell_buffer.scratch_view()[j] == flips@[j],
            decreases n - i,
        {
            let b = flips[i];
            self.cell_buffer.write_scratch(i, b);
            i += 1;
        }
        proof {
            assert(self.cell_buffer.scratch_view() =~= flips@);
        }
        self.cell_buffer.swap();
    }

    /// Regenerates the grid line layout from the current dimensions
    /// and records the fetched buffer's element count: 4 floats for
    /// each of the `width + height + 2` lines.
    pub fn grid_line_coords(&mut self) -> (r: Vec<GridLine>)
        requires
            old(self).wf(),
        ensures
            final(self).wf(),
            final(self).grid_width() == old(self).grid_width(),
            final(self).grid_height() == old(self).grid_height(),
            final(self).cells_spec() == old(self).cells_spec(),
            r@.len() == (old(self).grid_width() as int) + (old(self).grid_height() as int) + 2,
            forall|k: int|
                0 <= k <= old(self).grid_width() ==> (#[trigger] r@[k]).vertical && r@[k].index
                    == k,
            forall|k: int|
                old(self).grid_width() < k < r@.len() ==> !(#[trigger] r@[k]).vertical
                    && r@[k].index == k - old(self).grid_width() - 1,
            final(self).line_count_spec() == 4 * ((old(self).grid_width() as int) + (old(
                self,
            ).grid_height() as int) + 2),
            final(self).rect_count_spec() == old(self).rect_count_spec(),
    {
        self.graph.grid_line_coords(self.width, self.height)
    }

    /// Elements of the last fetched grid line buffer. Two calls with
    /// no resize in between return the same value both times.
    pub fn grid_line_coords_count(&self) -> (r: u32)
        ensures
            r == self.line_count_spec(),
    {
        self.graph.grid_line_coords_count()
    }

    /// Regenerates the alive-cell rectangle layout from the current
    /// generation, in ascending bit order, and records the fetched
    /// buffer's element count: 12 floats per alive cell.
    pub fn cell_coords(&mut self) -> (r: Vec<CellRect>)
        requires
            old(self).wf(),
        ensures
            final(self).wf(),
            final(self).grid_width() == old(self).grid_width(),
            final(self).grid_height() == old(self).grid_height(),
            final(self).cells_spec() == old(self).cells_spec(),
            r@.len() == pop_count(old(self).cells_spec()),
            forall|k: int|
                0 <= k < r@.len() ==> (#[trigger] r@[k]).row == alive_indices(
                    old(self).cells_spec(),
                )[k] / (old(self).grid_width() as int) && r@[k].col == alive_indices(
                    old(self).cells_spec(),
                )[k] % (old(self).grid_width() as int),
            final(self).rect_count_spec() == 12 * pop_count(old(self).cells_spec()),
            final(self).line_count_spec() == old(self).line_count_spec(),
    {
        let (active, _) = self.cell_buffer.buffers();
        self.graph.cell_coords(active, self.width, self.height)
    }

    /// Elements of the last fetched cell rectangle buffer.
    pub fn cell_coords_count(&self) -> (r: u32)
        ensures
            r == self.rect_count_spec(),
    {
        self.graph.cell_coords_count()
    }

    /// Sets the given cells alive, each named by `(row, column)`;
    /// every other cell keeps its state.
    pub fn set_cells(&mut self, cells: &Vec<(u32, u32)>)
        requires
            old(self).wf(),
            forall|k: int|
                0 <= k < cells@.len() ==> (#[trigger] cells@[k]).0 < old(self).grid_height()
                    && cells@[k].1 < old(self).grid_width(),
        ensures
            final(self).wf(),
            final(self).grid_width() == old(self).grid_width(),
            final(self).grid_height() == old(self).grid_height(),
            final(self).line_count_spec() == old(self).line_count_spec(),
            final(self).rect_count_spec() == old(self).rect_count_spec(),
            final(self).cells_spec().len() == old(self).cells_spec().len(),
            forall|j: int|
                0 <= j < old(self).cells_spec().len() ==> final(self).cells_spec()[j] == (old(
                    self,
                ).cells_spec()[j] || exists|k: int|
                    0 <= k < cells@.len() && j == (#[trigger] cells@[k]).0 * (old(
                        self,
                    ).grid_width() as int) + cells@[k].1),
    {
        let ghost w = old(self).grid_width() as int;
        proof {
            self.cell_buffer.lemma_wf_sizes();
        }
        let mut set_cell_indices: Vec<usize> = Vec::new();
        let n = cells.len();
        let mut k: usize = 0;
        while k < n
            invariant
                k <= n,
                n == cells@.len(),
                *self == *old(self),
                self.wf(),
                w == self.width as int,
                forall|kk: int|
                    0 <= kk < cells@.len() ==> (#[trigger] cells@[kk]).0 < self.grid_height()
                        && cells@[kk].1 < self.grid_width(),
                set_cell_indices@.len() == k,
                forall|kk: int|
                    0 <= kk < k ==> (#[trigger] set_cell_indices@[kk]) as int == (cells@[kk].0
                        as int) * w + (cells@[kk].1 as int) && (set_cell_indices@[kk] as int) < (
                    self.width as int) * (self.height as int),
            decreases n - k,
        {
            let (row, col) = cells[k];
            let idx = self.get_index(row, col);
            set_cell_indices.push(idx);
            k += 1;
        }
        let ghost idxs = set_cell_indices@;
        self.cell_buffer.set_cells(set_cell_indices);
        proof {
            assert forall|j: int| 0 <= j < old(self).cells_spec().len() implies self.cells_spec()[j]
                == (old(self).cells_spec()[j] || exists|k2: int|
                0 <= k2 < cells@.len() && j == (#[trigger] cells@[k2]).0 * w + cells@[k2].1) by {
                if contains_index(idxs, j) {
                    let k2 = choose|k2: int| 0 <= k2 < idxs.len() && idxs[k2] as int == j;
                    assert(j == cells@[k2].0 * w + cells@[k2].1);
                }
                if exists|k2: int|
                    0 <= k2 < cells@.len() && j == (#[trigger] cells@[k2]).0 * w + cells@[k2].1 {
                    let k2 = choose|k2: int|
                        0 <= k2 < cells@.len() && j == (#[trigger] cells@[k2]).0 * w
                            + cells@[k2].1;
                    assert(idxs[k2] as int == j);
                    assert(contains_index(idxs, j));
                }
            }
        }
    }

    /// Translates each relative offset of `pattern` from the anchor
    /// `(row, col)`, wrapping toroidally at the grid edges, and sets
    /// the resulting cells alive on top of the current generation.
    fn insert_pattern(&mut self, row: u32, col: u32, pattern: Vec<(i32, i32)>)
        requires
            old(self).wf(),
            row < old(self).grid_height(),
            col < old(self).grid_width(),
        ensures
            final(self).wf(),
            final(self).grid_width() == old(self).grid_width(),
            final(self).grid_height() == old(self).grid_height(),
            final(self).line_count_spec() == old(self).line_count_spec(),
            final(self).rect_count_spec() == old(self).rect_count_spec(),
            final(self).cells_spec().len() == old(self).cells_spec().len(),
            forall|j: int|
                0 <= j < old(self).cells_spec().len() ==> final(self).cells_spec()[j] == (old(
                    self,
                ).cells_spec()[j] || exists|k: int|
                    0 <= k < pattern@.len() && j == wrapped_cell(
                        row as int,
                        col as int,
                        (#[trigger] pattern@[k]).0 as int,
                        pattern@[k].1 as int,
                        old(self).grid_width() as int,
                        old(self).grid_height() as int,
                    )),
    {
        let ghost w = old(self).grid_width() as int;
        let ghost h = old(self).grid_height() as int;
        proof {
            self.cell_buffer.lemma_wf_sizes();
        }
        let mut pattern_indices: Vec<usize> = Vec::new();
        let n = pattern.len();
        let mut k: usize = 0;
        while k < n
            invariant
                k <= n,
                n == pattern@.len(),
                *self == *old(self),
                self.wf(),
                row < self.grid_height(),
                col < self.grid_width(),
                w == self.width as int,
                h == self.height as int,
                pattern_indices@.len() == k,
                forall|kk: int|
                    0 <= kk < k ==> (#[trigger] pattern_indices@[kk]) as int == wrapped_cell(
                        row as int,
                        col as int,
                        pattern@[kk].0 as int,
                        pattern@[kk].1 as int,
                        w,
                        h,
                    ) && (pattern_indices@[kk] as int) < w * h,
            decreases n - k,
        {
            let (row_delta, col_delta) = pattern[k];
            let wrapped_row = wrap_coord(row, row_delta, self.height);
            let wrapped_col = wrap_coord(col, col_delta, self.width);
            let idx = self.get_index(wrapped_row, wrapped_col);
            pattern_indices.push(idx);
            k += 1;
        }
        let ghost idxs = pattern_indices@;
        self.cell_buffer.set_cells(pattern_indices);
        proof {
            assert forall|j: int| 0 <= j < old(self).cells_spec().len() implies self.cells_spec()[j]
                == (old(self).cells_spec()[j] || exists|k2: int|
                0 <= k2 < pattern@.len() && j == wrapped_cell(
                    row as int,
                    col as int,
                    (#[trigger] pattern@[k2]).0 as int,
                    pattern@[k2].1 as int,
                    w,
                    h,
                )) by {
                if contains_index(idxs, j) {
                    let k2 = choose|k2: int| 0 <= k2 < idxs.len() && idxs[k2] as int == j;
                    assert(j == wrapped_cell(
                        row as int,
                        col as int,
                        pattern@[k2].0 as int,
                        pattern@[k2].1 as int,
                        w,
                        h,
                    ));
                }
                if exists|k2: int|
                    0 <= k2 < pattern@.len() && j == wrapped_cell(
                        row as int,
                        col as int,
                        (#[trigger] pattern@[k2]).0 as int,
                        pattern@[k2].1 as int,
                        w,
                        h,
                    ) {
                    let k2 = choose|k2: int|
                        0 <= k2 < pattern@.len() && j == wrapped_cell(
                            row as int,
                            col as int,
                            (#[trigger] pattern@[k2]).0 as int,
                            pattern@[k2].1 as int,
                            w,
                            h,
                        );
                    assert(idxs[k2] as int == j);
                    assert(contains_index(idxs, j));
                }
            }
        }
    }

    /// Inserts the five-cell glider anchored at `(row, col)`, wrapping
    /// toroidally at the grid edges; existing live cells are kept.
    pub fn insert_glider(&mut self, row: u32, col: u32)
        requires
            old(self).wf(),
            row < old(self).grid_height(),
            col < old(self).grid_width(),
        ensures
            final(self).wf(),
            final(self).grid_width() == old(self).grid_width(),
            final(self).grid_height() == old(self).grid_height(),
            final(self).line_count_spec() == old(self).line_count_spec(),
            final(self).rect_count_spec() == old(self).rect_count_spec(),
            final(self).cells_spec().len() == old(self).cells_spec().len(),
            forall|j: int|
                0 <= j < old(self).cells_spec().len() ==> final(self).cells_spec()[j] == (old(
                    self,
                ).cells_spec()[j] || exists|k: int|
                    0 <= k < glider_offsets().len() && j == wrapped_cell(
                        row as int,
                        col as int,
                        (#[trigger] glider_offsets()[k]).0,
                        glider_offsets()[k].1,
                        old(self).grid_width() as int,
                        old(self).grid_height() as int,
                    )),
    {
        let ghost w = old(self).grid_width() as int;
        let ghost h = old(self).grid_height() as int;
        let glider: Vec<(i32, i32)> = vec![(-1, -1), (0, 0), (0, 1), (1, -1), (1, 0)];
        let ghost pat = glider@;
        proof {
            assert forall|k: int| 0 <= k < pat.len() implies (#[trigger] pat[k]).0 as int
                == glider_offsets()[k].0 && pat[k].1 as int == glider_offsets()[k].1 by {
            }
        }
        self.insert_pattern(row, col, glider);
        proof {
            lemma_offsets_equivalent(
                old(self).cells_spec(),
                self.cells_spec(),
                row as int,
                col as int,
                pat,
                glider_offsets(),
                w,
                h,
            );
        }
    }

    /// Inserts the forty-eight-cell pulsar anchored at `(row, col)`,
    /// wrapping toroidally at the grid edges; existing live cells are
    /// kept.
    pub fn insert_pulsar(&mut self, row: u32, col: u32)
        requires
            old(self).wf(),
            row < old(self).grid_height(),
            col < old(self).grid_width(),
        ensures
            final(self).wf(),
            final(self).grid_width() == old(self).grid_width(),
            final(self).grid_height() == old(self).grid_height(),
            final(self).line_count_spec() == old(self).line_count_spec(),
            final(self).rect_count_spec() == old(self).rect_count_spec(),
            final(self).cells_spec().len() == old(self).cells_spec().len(),
            forall|j: int|
                0 <= j < old(self).cells_spec().len() ==> final(self).cells_spec()[j] == (old(
                    self,
                ).cells_spec()[j] || exists|k: int|
                    0 <= k < pulsar_offsets().len() && j == wrapped_cell(
                        row as int,
                        col as int,
                        (#[trigger] pulsar_offsets()[k]).0,
                        pulsar_offsets()[k].1,
                        old(self).grid_width() as int,
                        old(self).grid_height() as int,
                    )),
    {
        let ghost w = old(self).grid_width() as int;
        let ghost h = old(self).grid_height() as int;
        let pulsar: Vec<(i32, i32)> = vec![
            (-6, -4),
            (-6, -3),
            (-6, -2),
            (-6, 2),
            (-6, 3),
            (-6, 4),
            (-4, -6),
            (-4, -1),
            (-4, 1),
            (-4, 6),
            (-3, -6),
            (-3, -1),
            (-3, 1),
            (-3, 6),
            (-2, -6),
            (-2, -1),
            (-2, 1),
            (-2, 6),
            (-1, -4),
            (-1, -3),
            (-1, -2),
            (-1, 2),
            (-1, 3),
            (-1, 4),
            (1, -4),
            (1, -3),
            (1, -2),
            (1, 2),
            (1, 3),
            (1, 4),
            (2, -6),
            (2, -1),
            (2, 1),
            (2, 6),
            (3, -6),
            (3, -1),
            (3, 1),
            (3, 6),
            (4, -6),
            (4, -1),
            (4, 1),
            (4, 6),
            (6, -4),
            (6, -3),
            (6, -2),
            (6, 2),
            (6, 3),
            (6, 4),
        ];
        let ghost pat = pulsar@;
        proof {
            assert forall|k: int| 0 <= k < pat.len() implies (#[trigger] pat[k]).0 as int
                == pulsar_offsets()[k].0 && pat[k].1 as int == pulsar_offsets()[k].1 by {
            }
        }
        self.insert_pattern(row, col, pulsar);
        proof {
            lemma_offsets_equivalent(
                old(self).cells_spec(),
                self.cells_spec(),
                row as int,
                col as int,
                pat,
                pulsar_offsets(),
                w,
                h,
            );
        }
    }

    /// A textual dump of the current generation: one glyph per cell,
    /// rows separated by newlines.
    pub fn render(&self) -> (r: String)
        requires
            self.wf(),
        ensures
            r@ == render_spec(
                self.cells_spec(),
                self.grid_width() as int,
                self.grid_height() as int,
            ),
    {
        let ghost s = self.cells_spec();
        let ghost w = self.grid_width() as int;
        let ghost h = self.grid_height() as int;
        proof {
            self.cell_buffer.lemma_wf_sizes();
        }
        let mut out = String::new();
        let mut row: u32 = 0;
        while row < self.height
            invariant
                row <= self.height,
                self.wf(),
                s == self.cells_spec(),
                w == self.width as int,
                h == self.height as int,
                out@ == render_rows(s, w, row as int),
            decreases self.height - row,
        {
            let mut col: u32 = 0;
            while col < self.width
                invariant
                    col <= self.width,
                    row < self.height,
                    self.wf(),
                    s == self.cells_spec(),
                    w == self.width as int,
                    h == self.height as int,
                    out@ == render_rows(s, w, row as int) + render_row(s, w, row as int, col as int),
                decreases self.width - col,
            {
                let idx = self.get_index(row, col);
                if self.cell_buffer.active_bit(idx) {
                    out.append("\u{25fc}");
                } else {
                    out.append("\u{25fb}");
                }
                col += 1;
            }
            out.append("\n");
            row += 1;
        }
        out
    }

    /// How many of the eight toroidal neighbours of `(row, column)`
    /// are alive: rows wrap north/south and columns wrap west/east, so
    /// edge and corner cells have eight neighbours like any other.
    pub fn live_neighbour_count(&self, row: u32, column: u32) -> (r: u8)
        requires
            self.wf(),
            row < self.grid_height(),
            column < self.grid_width(),
        ensures
            r as nat == neighbor_count(
                self.cells_spec(),
                self.grid_width() as int,
                self.grid_height() as int,
                row as int,
                column as int,
            ),
            r <= 8,
    {
        let ghost s = self.cells_spec();
        let ghost w = self.grid_width() as int;
        let ghost h = self.grid_height() as int;
        proof {
            self.cell_buffer.lemma_wf_sizes();
        }
        let mut count: u8 = 0;

        let north = if row == 0 {
            self.height - 1
        } else {
            row - 1
        };
        let south = if row == self.height - 1 {
            0
        } else {
            row + 1
        };
        let west = if column == 0 {
            self.width - 1
        } else {
            column - 1
        };
        let east = if column == self.width - 1 {
            0
        } else {
            column + 1
        };
        proof {
            assert(north as int == wrap_dec(row as int, h));
            assert(south as int == wrap_inc(row as int, h));
            assert(west as int == wrap_dec(column as int, w));
            assert(east as int == wrap_inc(column as int, w));
        }

        let nw = self.get_index(north, west);
        if self.cell_buffer.active_bit(nw) {
            count += 1;
        }

        let n = self.get_index(north, column);
        if self.cell_buffer.active_bit(n) {
            count += 1;
        }

        let ne = self.get_index(north, east);
        if self.cell_buffer.active_bit(ne) {
            count += 1;
        }

        let wi = self.get_index(row, west);
        if self.cell_buffer.active_bit(wi) {
            count += 1;
        }

        let e = self.get_index(row, east);
        if self.cell_buffer.active_bit(e) {
            count += 1;
        }

        let sw = self.get_index(south, west);
        if self.cell_buffer.active_bit(sw) {
            count += 1;
        }

        let so = self.get_index(south, column);
        if self.cell_buffer.active_bit(so) {
            count += 1;
        }

        let se = self.get_index(south, east);
        if self.cell_buffer.active_bit(se) {
            count += 1;
        }

        count
    }

    /// Computes the next generation into scratch — every cell reading
    /// only the generation before the step — then commits once.
    fn step_once(&mut self)
        requires
            old(self).wf(),
        ensures
            final(self).wf(),
            final(self).width == old(self).width,
            final(self).height == old(self).height,
            final(self).graph == old(self).graph,
            final(self).cells_spec() == step_spec(
                old(self).cells_spec(),
                old(self).grid_width() as int,
                old(self).grid_height() as int,
            ),
    {
        let ghost s = old(self).cells_spec();
        let ghost w = old(self).grid_width() as int;
        let ghost h = old(self).grid_height() as int;
        proof {
            self.cell_buffer.lemma_wf_sizes();
        }
        let mut row: u32 = 0;
        while row < self.height
            invariant
                row <= self.height,
                self.wf(),
                self.width == old(self).width,
                self.height == old(self).height,
                self.graph == old(self).graph,
                w == self.width as int,
                h == self.height as int,
                self.cell_buffer.active_view() == s,
                s.len() == w * h,
                self.cell_buffer.scratch_view().len() == s.len(),
                forall|j: int|
                    0 <= j < (row as int) * w ==> self.cell_buffer.scratch_view()[j] == step_spec(
                        s,
                        w,
                        h,
                    )[j],
            decreases self.height - row,
        {
            let mut col: u32 = 0;
            while col < self.width
                invariant
                    col <= self.width,
                    row < self.height,
                    self.wf(),
                    self.width == old(self).width,
                    self.height == old(self).height,
                    self.graph == old(self).graph,
                    w == self.width as int,
                    h == self.height as int,
                    self.cell_buffer.active_view() == s,
                    s.len() == w * h,
                    self.cell_buffer.scratch_view().len() == s.len(),
                    forall|j: int|
                        0 <= j < (row as int) * w + col ==> self.cell_buffer.scratch_view()[j]
                            == step_spec(s, w, h)[j],
                decreases self.width - col,
            {
                let idx = self.get_index(row, col);
                let cell = self.cell_buffer.active_bit(idx);
                let live_neighbours = self.live_neighbour_count(row, col);

                // The rule table, an ordered case match: underpopulation,
                // survival, overpopulation, reproduction, no change.
                let next = if cell && live_neighbours < 2 {
                    false
                } else if cell && (live_neighbours == 2 || live_neighbours == 3) {
                    true
                } else if cell && live_neighbours > 3 {
                    false
                } else if !cell && live_neighbours == 3 {
                    true
                } else {
                    cell
                };
                proof {
                    vstd::arithmetic::div_mod::lemma_fundamental_div_mod_converse(
                        idx as int,
                        w,
                        row as int,
                        col as int,
                    );
                    assert(next == next_cell(s[idx as int], live_neighbours as nat));
                    assert(step_spec(s, w, h)[idx as int] == next_cell(
                        s[idx as int],
                        neighbor_count(s, w, h, row as int, col as int),
                    ));
                }
                self.cell_buffer.write_scratch(idx, next);
                col += 1;
            }
            proof {
                assert((row as int + 1) * w == (row as int) * w + w) by (nonlinear_arith);
            }
            row += 1;
        }
        proof {
            assert((h * w) == (w * h)) by (nonlinear_arith);
            assert(self.cell_buffer.scratch_view() =~= step_spec(s, w, h));
        }
        self.cell_buffer.swap();
    }

    /// Advances the simulation `iterations` full generations. Each
    /// generation scans the whole grid against the prior one and
    /// commits once; no partial progress is observable in between.
    pub fn tick(&mut self, iterations: usize)
        requires
            old(self).wf(),
        ensures
            final(self).wf(),
            final(self).grid_width() == old(self).grid_width(),
            final(self).grid_height() == old(self).grid_height(),
            final(self).cells_spec() == iterate_spec(
                old(self).cells_spec(),
                old(self).grid_width() as int,
                old(self).grid_height() as int,
                iterations as nat,
            ),
            final(self).line_count_spec() == old(self).line_count_spec(),
            final(self).rect_count_spec() == old(self).rect_count_spec(),
    {
        let ghost w = old(self).grid_width() as int;
        let ghost h = old(self).grid_height() as int;
        let mut it: usize = 0;
        while it < iterations
            invariant
                it <= iterations,
                self.wf(),
                self.width == old(self).width,
                self.height == old(self).height,
                self.graph == old(self).graph,
                w == self.width as int,
                h == self.height as int,
                self.cells_spec() == iterate_spec(old(self).cells_spec(), w, h, it as nat),
            decreases iterations - it,
        {
            self.step_once();
            it += 1;
        }
    }
}

/// Wraps `base + delta` onto the ring `[0, modulus)`, so that pattern
/// offsets reaching past a grid edge re-enter from the opposite edge.
fn wrap_coord(base: u32, delta: i32, modulus: u32) -> (r: u32)
    requires
        modulus >= 1,
    ensures
        r < modulus,
        r as int == ((base as int) + (delta as int)) % (modulus as int),
{
    let m = base as i64 + delta as i64;
    let d = modulus as i64;
    if m >= 0 {
        let r0 = m % d;
        proof {
            vstd::arithmetic::div_mod::lemma_mod_bound(m as int, d as int);
        }
        r0 as u32
    } else {
        let u = -m;
        let r0 = u % d;
        proof {
            vstd::arithmetic::div_mod::lemma_mod_bound(u as int, d as int);
            vstd::arithmetic::div_mod::lemma_fundamental_div_mod(u as int, d as int);
            let q = (u as int) / (d as int);
            if (u as int) % (d as int) == 0 {
                assert((m as int) == (-q) * (d as int) + 0) by (nonlinear_arith)
                    requires
                        (m as int) == -(u as int),
                        (u as int) == (d as int) * q,
                ;
                vstd::arithmetic::div_mod::lemma_fundamental_div_mod_converse(
                    m as int,
                    d as int,
                    -q,
                    0,
                );
            } else {
                assert((m as int) == (-q - 1) * (d as int) + ((d as int) - (u as int) % (
                d as int))) by (nonlinear_arith)
                    requires
                        (m as int) == -(u as int),
                        (u as int) == (d as int) * q + (u as int) % (d as int),
                ;
                vstd::arithmetic::div_mod::lemma_fundamental_div_mod_converse(
                    m as int,
                    d as int,
                    -q - 1,
                    (d as int) - (u as int) % (d as int),
                );
            }
        }
        if r0 == 0 {
            0
        } else {
            (d - r0) as u32
        }
    }
}

/// The five glider offsets, relative to the anchor cell.
pub open spec fn glider_offsets() -> Seq<(int, int)> {
    seq![(-1, -1), (0, 0), (0, 1), (1, -1), (1, 0)]
}

/// The forty-eight pulsar offsets, relative to the anchor cell.
pub open spec fn pulsar_offsets() -> Seq<(int, int)> {
    seq![
        (-6, -4),
        (-6, -3),
        (-6, -2),
        (-6, 2),
        (-6, 3),
        (-6, 4),
        (-4, -6),
        (-4, -1),
        (-4, 1),
        (-4, 6),
        (-3, -6),
        (-3, -1),
        (-3, 1),
        (-3, 6),
        (-2, -6),
        (-2, -1),
        (-2, 1),
        (-2, 6),
        (-1, -4),
        (-1, -3),
        (-1, -2),
        (-1, 2),
        (-1, 3),
        (-1, 4),
        (1, -4),
        (1, -3),
        (1, -2),
        (1, 2),
        (1, 3),
        (1, 4),
        (2, -6),
        (2, -1),
        (2, 1),
        (2, 6),
        (3, -6),
        (3, -1),
        (3, 1),
        (3, 6),
        (4, -6),
        (4, -1),
        (4, 1),
        (4, 6),
        (6, -4),
        (6, -3),
        (6, -2),
        (6, 2),
        (6, 3),
        (6, 4),
    ]
}

/// On an otherwise dead grid, the cells a glider insertion leaves
/// alive — the pointwise description `insert_glider` ensures — are
/// exactly the glider shape anchored at `(r, c)`, provided the shape
/// stays clear of the grid edges.
pub proof fn lemma_glider_shape(dead: Seq<bool>, stamped: Seq<bool>, w: int, h: int, r: int, c: int)
    requires
        1 <= r && r <= h - 2,
        1 <= c && c <= w - 2,
        dead.len() == w * h,
        forall|i: int| 0 <= i < w * h ==> !dead[i],
        stamped.len() == w * h,
        forall|j: int|
            0 <= j < w * h ==> stamped[j] == (dead[j] || exists|k: int|
                0 <= k < glider_offsets().len() && j == wrapped_cell(
                    r,
                    c,
                    (#[trigger] glider_offsets()[k]).0,
                    glider_offsets()[k].1,
                    w,
                    h,
                )),
    ensures
        stamped == crate::rules::grid_of(w, h, crate::rules::glider_cells(r, c)),
{
    let offs = glider_offsets();
    let shape = crate::rules::glider_cells(r, c);
    assert forall|j: int| 0 <= j < w * h implies stamped[j] == crate::rules::grid_of(w, h, shape)[j]
        by {
        let row = j / w;
        let col = j % w;
        vstd::arithmetic::div_mod::lemma_mod_bound(j, w);
        vstd::arithmetic::div_mod::lemma_fundamental_div_mod(j, w);
        assert(0 <= row < h) by (nonlinear_arith)
            requires
                j == w * row + col,
                0 <= col < w,
                0 <= j < w * h,
                w >= 3,
                h >= 3,
        ;
        assert forall|k: int| 0 <= k < offs.len() implies #[trigger] wrapped_cell(
            r,
            c,
            offs[k].0,
            offs[k].1,
            w,
            h,
        ) == (r + offs[k].0) * w + (c + offs[k].1) by {
            vstd::arithmetic::div_mod::lemma_small_mod((r + offs[k].0) as nat, h as nat);
            vstd::arithmetic::div_mod::lemma_small_mod((c + offs[k].1) as nat, w as nat);
        }
        if exists|k: int|
            0 <= k < offs.len() && j == wrapped_cell(r, c, (#[trigger] offs[k]).0, offs[k].1, w, h) {
            let k = choose|k: int|
                0 <= k < offs.len() && j == wrapped_cell(
                    r,
                    c,
                    (#[trigger] offs[k]).0,
                    offs[k].1,
                    w,
                    h,
                );
            vstd::arithmetic::div_mod::lemma_fundamental_div_mod_converse(
                j,
                w,
                r + offs[k].0,
                c + offs[k].1,
            );
            assert(shape(row, col));
        }
        if shape(row, col) {
            let k: int = if row == r - 1 && col == c - 1 {
                0
            } else if row == r && col == c {
                1
            } else if row == r && col == c + 1 {
                2
            } else if row == r + 1 && col == c - 1 {
                3
            } else {
                4
            };
            assert(row == r + offs[k].0 && col == c + offs[k].1);
            assert(w * row == row * w) by (nonlinear_arith);
            assert(j == wrapped_cell(r, c, offs[k].0, offs[k].1, w, h));
        }
    }
    assert(stamped =~= crate::rules::grid_of(w, h, shape));
}

/// Glider invariant at the interface level: on an otherwise dead grid,
/// inserting a glider at `(r, c)` and ticking four times gives exactly
/// the generation that inserting it at `(r + 1, c + 1)` gives, as long
/// as the shape stays clear of the grid edges on the way.
pub proof fn lemma_glider_tick_translation(
    dead: Seq<bool>,
    start: Seq<bool>,
    shifted: Seq<bool>,
    w: int,
    h: int,
    r: int,
    c: int,
)
    requires
        2 <= r && r <= h - 4,
        2 <= c && c <= w - 4,
        dead.len() == w * h,
        forall|i: int| 0 <= i < w * h ==> !dead[i],
        start.len() == w * h,
        forall|j: int|
            0 <= j < w * h ==> start[j] == (dead[j] || exists|k: int|
                0 <= k < glider_offsets().len() && j == wrapped_cell(
                    r,
                    c,
                    (#[trigger] glider_offsets()[k]).0,
                    glider_offsets()[k].1,
                    w,
                    h,
                )),
        shifted.len() == w * h,
        forall|j: int|
            0 <= j < w * h ==> shifted[j] == (dead[j] || exists|k: int|
                0 <= k < glider_offsets().len() && j == wrapped_cell(
                    r + 1,
                    c + 1,
                    (#[trigger] glider_offsets()[k]).0,
                    glider_offsets()[k].1,
                    w,
                    h,
                )),
    ensures
        iterate_spec(start, w, h, 4) == shifted,
{
    lemma_glider_shape(dead, start, w, h, r, c);
    lemma_glider_shape(dead, shifted, w, h, r + 1, c + 1);
    crate::rules::lemma_glider_translation(w, h, r, c);
}

/// The population of a freshly seeded generation of `n` cells equals
/// the number of indices below `n` that the seed rule makes alive.
pub proof fn lemma_seed_population(n: nat)
    ensures
        Set::new(|i: int| 0 <= i < n && seed_alive(i)).finite(),
        pop_count(seed_seq(n)) == Set::new(|i: int| 0 <= i < n && seed_alive(i)).len(),
    decreases n,
{
    let seeded = Set::new(|i: int| 0 <= i < n && seed_alive(i));
    if n == 0 {
        assert(seed_seq(0) =~= Seq::<bool>::empty());
        assert(seeded =~= Set::<int>::empty());
    } else {
        lemma_seed_population((n - 1) as nat);
        let prev = Set::new(|i: int| 0 <= i < n - 1 && seed_alive(i));
        assert(seed_seq(n).drop_last() =~= seed_seq((n - 1) as nat));
        if seed_alive(n - 1) {
            assert(seeded =~= prev.insert(n - 1));
            assert(!prev.contains(n - 1));
            assert(seeded.len() == prev.len() + 1);
        } else {
            assert(seeded =~= prev);
        }
    }
}

/// An offset list and its integer image stamp the same cells: the
/// pointwise description of an insertion carries over to the named
/// offset sequence.
proof fn lemma_offsets_equivalent(
    old_cells: Seq<bool>,
    new_cells: Seq<bool>,
    row: int,
    col: int,
    pat: Seq<(i32, i32)>,
    offs: Seq<(int, int)>,
    w: int,
    h: int,
)
    requires
        pat.len() == offs.len(),
        forall|k: int|
            0 <= k < pat.len() ==> (#[trigger] pat[k]).0 as int == offs[k].0 && pat[k].1 as int
                == offs[k].1,
        new_cells.len() == old_cells.len(),
        forall|j: int|
            0 <= j < old_cells.len() ==> new_cells[j] == (old_cells[j] || exists|k: int|
                0 <= k < pat.len() && j == wrapped_cell(
                    row,
                    col,
                    (#[trigger] pat[k]).0 as int,
                    pat[k].1 as int,
                    w,
                    h,
                )),
    ensures
        forall|j: int|
            0 <= j < old_cells.len() ==> new_cells[j] == (old_cells[j] || exists|k: int|
                0 <= k < offs.len() && j == wrapped_cell(
                    row,
                    col,
                    (#[trigger] offs[k]).0,
                    offs[k].1,
                    w,
                    h,
                )),
{
    assert forall|j: int| 0 <= j < old_cells.len() implies new_cells[j] == (old_cells[j] || exists|
        k: int,
    |
        0 <= k < offs.len() && j == wrapped_cell(
            row,
            col,
            (#[trigger] offs[k]).0,
            offs[k].1,
            w,
            h,
        )) by {
        if exists|k: int|
            0 <= k < pat.len() && j == wrapped_cell(
                row,
                col,
                (#[trigger] pat[k]).0 as int,
                pat[k].1 as int,
                w,
                h,
            ) {
            let k = choose|k: int|
                0 <= k < pat.len() && j == wrapped_cell(
                    row,
                    col,
                    (#[trigger] pat[k]).0 as int,
                    pat[k].1 as int,
                    w,
                    h,
                );
            assert(j == wrapped_cell(row, col, offs[k].0, offs[k].1, w, h));
        }
        if exists|k: int|
            0 <= k < offs.len() && j == wrapped_cell(
                row,
                col,
                (#[trigger] offs[k]).0,
                offs[k].1,
                w,
                h,
            ) {
            let k = choose|k: int|
                0 <= k < offs.len() && j == wrapped_cell(
                    row,
                    col,
                    (#[trigger] offs[k]).0,
                    offs[k].1,
                    w,
                    h,
                );
            assert(j == wrapped_cell(row, col, pat[k].0 as int, pat[k].1 as int, w, h));
        }
    }
}

/// With the geometry counts bounded by `u32::MAX`, the cell count
/// itself fits as well.
proof fn lemma_dims_fit(w: int, h: int)
    requires
        w >= 1,
        h >= 1,
        12 * w * h <= u32::MAX,
    ensures
        w * h <= u32::MAX,
        w * h >= 1,
{
    assert(w * h <= 12 * w * h && w * h >= 1) by (nonlinear_arith)
        requires
            w >= 1,
            h >= 1,
    ;
}

} // verus!
