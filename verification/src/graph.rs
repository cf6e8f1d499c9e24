//! Geometry generator.
//!
//! The host rasterizer draws two buffers of floats: grid line endpoints
//! (4 floats per line) and alive-cell rectangles (12 floats per alive
//! cell). The float values live outside this crate; here the generator
//! produces the integer layout each buffer is built from — which lines
//! exist, and the row/column of every alive cell in ascending index
//! order — and tracks the element count of the buffer a caller most
//! recently fetched.

use crate::bitset::bit_view;
use crate::bitset::bits_get;
use crate::bitset::bits_len;
use vstd::prelude::*;

verus! {

/// The indices of the alive cells of a generation, in ascending order.
pub open spec fn alive_indices(s: Seq<bool>) -> Seq<int>
    decreases s.len(),
{
    if s.len() == 0 {
        Seq::empty()
    } else if s.last() {
        alive_indices(s.drop_last()).push(s.len() - 1)
    } else {
        alive_indices(s.drop_last())
    }
}

/// How many cells of a generation are alive.
pub open spec fn pop_count(s: Seq<bool>) -> nat {
    alive_indices(s).len()
}

/// Every listed index is an in-range alive cell, in ascending order,
/// and there are no more alive indices than cells.
pub proof fn lemma_alive_indices(s: Seq<bool>)
    ensures
        alive_indices(s).len() <= s.len(),
        forall|k: int|
            0 <= k < alive_indices(s).len() ==> 0 <= #[trigger] alive_indices(s)[k] < s.len()
                && s[alive_indices(s)[k]],
    decreases s.len(),
{
    if s.len() > 0 {
        lemma_alive_indices(s.drop_last());
    }
}

/// One grid line: vertical line `index` runs the full height at the
/// `index`-th column boundary; a horizontal one runs the full width at
/// the `index`-th row boundary. A rasterizer turns each into 4 floats.
#[derive(Clone, Copy, PartialEq, Eq, Structural, Debug)]
pub struct GridLine {
    pub vertical: bool,
    pub index: u32,
}

/// The cell at `(row, col)` is alive and is to be drawn as a rectangle
/// of two triangles. A rasterizer turns each into 12 floats.
#[derive(Clone, Copy, PartialEq, Eq, Structural, Debug)]
pub struct CellRect {
    pub row: u32,
    pub col: u32,
}

/// Tracks, for each of the two geometry buffers, how many float
/// elements the most recently fetched buffer holds. A fresh generator
/// has fetched nothing, so both counts start at zero.
pub struct Graph {
    line_coords_len: u32,
    cell_coords_len: u32,
}

impl Graph {
    /// Elements of the last fetched grid line buffer.
    pub closed spec fn line_count_spec(&self) -> u32 {
        self.line_coords_len
    }

    /// Elements of the last fetched cell rectangle buffer.
    pub closed spec fn cell_count_spec(&self) -> u32 {
        self.cell_coords_len
    }

    pub fn new() -> (r: Graph)
        ensures
            r.line_count_spec() == 0,
            r.cell_count_spec() == 0,
    {
        Graph { line_coords_len: 0, cell_coords_len: 0 }
    }

    /// A resize blanks both buffers at the capacity the new dimensions
    /// ask for: `2 * (width + height + 2)` line elements reserved ahead
    /// of the next fetch, and `6 * width * height` rectangle elements.
    pub fn update_size(&mut self, width: u32, height: u32)
        requires
            width >= 1,
            height >= 1,
            12 * (width as int) * (height as int) <= u32::MAX,
            4 * ((width as int) + (height as int) + 2) <= u32::MAX,
        ensures
            final(self).line_count_spec() == 2 * ((width as int) + (height as int) + 2),
            final(self).cell_count_spec() == 6 * (width as int) * (height as int),
    {
        proof {
            assert((width as int) * (height as int) <= 12 * (width as int) * (height as int) && 6
                * ((width as int) * (height as int)) <= 12 * (width as int) * (height as int) && 6
                * ((width as int) * (height as int)) == 6 * (width as int) * (height as int))
                by (nonlinear_arith)
                requires
                    width >= 1,
                    height >= 1,
            ;
        }
        self.line_coords_len = 2 * (width + height + 2);
        self.cell_coords_len = 6 * (width * height);
    }

    /// Regenerates the grid line layout: `width + 1` vertical lines in
    /// ascending column order, then `height + 1` horizontal lines in
    /// ascending row order. The fetched buffer holds 4 floats per line.
    pub fn grid_line_coords(&mut self, width: u32, height: u32) -> (r: Vec<GridLine>)
        requires
            width >= 1,
            height >= 1,
            4 * ((width as int) + (height as int) + 2) <= u32::MAX,
        ensures
            r@.len() == (width as int) + (height as int) + 2,
            forall|k: int|
                0 <= k <= width ==> (#[trigger] r@[k]).vertical && r@[k].index == k,
            forall|k: int|
                width < k < r@.len() ==> !(#[trigger] r@[k]).vertical && r@[k].index == k - width
                    - 1,
            final(self).line_count_spec() == 4 * ((width as int) + (height as int) + 2),
            final(self).cell_count_spec() == old(self).cell_count_spec(),
    {
        let mut lines: Vec<GridLine> = Vec::new();

        let mut i: u32 = 0;
        while i <= width
            invariant
                i <= width + 1,
                width >= 1,
                4 * ((width as int) + (height as int) + 2) <= u32::MAX,
                lines@.len() == i,
                forall|k: int|
                    0 <= k < i ==> (#[trigger] lines@[k]).vertical && lines@[k].index == k,
            decreases width + 1 - i,
        {
            lines.push(GridLine { vertical: true, index: i });
            i += 1;
        }

        let mut i: u32 = 0;
        while i <= height
            invariant
                i <= height + 1,
                width >= 1,
                height >= 1,
                4 * ((width as int) + (height as int) + 2) <= u32::MAX,
                lines@.len() == width + 1 + i,
                forall|k: int|
                    0 <= k <= width ==> (#[trigger] lines@[k]).vertical && lines@[k].index == k,
                forall|k: int|
                    width < k < lines@.len() ==> !(#[trigger] lines@[k]).vertical
                        && lines@[k].index == k - width - 1,
            decreases height + 1 - i,
        {
            lines.push(GridLine { vertical: false, index: i });
            i += 1;
        }

        self.line_coords_len = 4 * (width + height + 2);
        lines
    }

    /// Elements of the last fetched grid line buffer. Fetching twice
    /// with no resize in between returns the same value both times,
    /// since the count is a function of the unchanged generator state.
    pub fn grid_line_coords_count(&self) -> (r: u32)
        ensures
            r == self.line_count_spec(),
    {
        self.line_coords_len
    }

    /// Regenerates the alive-cell rectangle layout: the row and column
    /// of every alive cell of `cells`, in ascending bit order. The
    /// fetched buffer holds 12 floats per alive cell.
    pub fn cell_coords(&mut self, cells: &fixedbitset::FixedBitSet, width: u32, height: u32) -> (r:
        Vec<CellRect>)
        requires
            width >= 1,
            height >= 1,
            bit_view(*cells).len() == (width as int) * (height as int),
            12 * (width as int) * (height as int) <= u32::MAX,
        ensures
            r@.len() == pop_count(bit_view(*cells)),
            forall|k: int|
                0 <= k < r@.len() ==> (#[trigger] r@[k]).row == alive_indices(bit_view(*cells))[k]
                    / (width as int) && r@[k].col == alive_indices(bit_view(*cells))[k] % (
                width as int),
            final(self).cell_count_spec() == 12 * pop_count(bit_view(*cells)),
            final(self).line_count_spec() == old(self).line_count_spec(),
    {
        let ghost s = bit_view(*cells);
        let mut rects: Vec<CellRect> = Vec::new();
        let size = bits_len(cells);
        proof {
            assert((width as int) * (height as int) < u32::MAX) by (nonlinear_arith)
                requires
                    width >= 1,
                    height >= 1,
                    12 * (width as int) * (height as int) <= u32::MAX,
            ;
        }

        let mut i: usize = 0;
        while i < size
            invariant
                i <= size,
                size == s.len(),
                s == bit_view(*cells),
                width >= 1,
                height >= 1,
                size == (width as int) * (height as int),
                size < u32::MAX,
                rects@.len() == alive_indices(s.take(i as int)).len(),
                forall|k: int|
                    0 <= k < rects@.len() ==> (#[trigger] rects@[k]).row == alive_indices(
                        s.take(i as int),
                    )[k] / (width as int) && rects@[k].col == alive_indices(s.take(i as int))[k] % (
                    width as int),
            decreases size - i,
        {
            let ghost prefix = s.take(i as int);
            let ghost next_prefix = s.take(i as int + 1);
            proof {
                assert(next_prefix.drop_last() =~= prefix);
                lemma_alive_indices(prefix);
            }
            if bits_get(cells, i) {
                let cell: u32 = i as u32;
                rects.push(CellRect { row: cell / width, col: cell % width });
                proof {
                    assert(alive_indices(next_prefix) =~= alive_indices(prefix).push(i as int));
                }
            } else {
                proof {
                    assert(alive_indices(next_prefix) =~= alive_indices(prefix));
                }
            }
            i += 1;
        }
        proof {
            assert(s.take(size as int) =~= s);
            lemma_alive_indices(s);
        }

        let count = rects.len();
        proof {
            assert(12 * ((width as int) * (height as int)) == 12 * (width as int) * (height as int))
                by (nonlinear_arith);
            assert(count <= size);
            assert(12 * (count as int) <= 12 * (size as int));
        }
        self.cell_coords_len = 12 * (count as u32);
        rects
    }

    /// Elements of the last fetched cell rectangle buffer.
    pub fn cell_coords_count(&self) -> (r: u32)
        ensures
            r == self.cell_count_spec(),
    {
        self.cell_coords_len
    }
}

} // verus!
