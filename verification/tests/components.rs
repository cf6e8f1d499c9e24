use life_grid::cell_buffer::CellBuffer;
use life_grid::graph::Graph;
use life_grid::Universe;

#[test]
fn cell_buffer_seed_and_swap() {
    let mut cb = CellBuffer::new(10);
    {
        let (active, _) = cb.buffers();
        for i in 0..10usize {
            assert_eq!(active.contains(i), i % 2 == 0 || i % 7 == 0);
        }
    }
    cb.swap();
    let (active, scratch) = cb.buffers();
    for i in 0..10usize {
        assert!(!active.contains(i));
        assert_eq!(scratch.contains(i), i % 2 == 0 || i % 7 == 0);
    }
}

#[test]
fn cell_buffer_set_cells_keeps_alive_cells() {
    let mut cb = CellBuffer::new(6);
    cb.update_size(4);
    cb.set_cells(vec![1, 3]);
    let (active, _) = cb.buffers();
    assert!(active.contains(0));
    assert!(active.contains(1));
    assert!(active.contains(2));
    assert!(active.contains(3));
}

#[test]
fn cell_buffer_toggle_cell() {
    let mut cb = CellBuffer::new(4);
    cb.toggle_cell(1);
    cb.toggle_cell(2);
    let (active, _) = cb.buffers();
    assert!(active.contains(0));
    assert!(active.contains(1));
    assert!(!active.contains(2));
    assert!(!active.contains(3));
}

#[test]
fn cell_buffer_update_size_reseeds() {
    let mut cb = CellBuffer::new(3);
    cb.toggle_cell(0);
    cb.update_size(8);
    let (active, _) = cb.buffers();
    for i in 0..8usize {
        assert_eq!(active.contains(i), i % 2 == 0 || i % 7 == 0);
    }
}

#[test]
fn graph_counts_start_empty() {
    let g = Graph::new();
    assert_eq!(g.grid_line_coords_count(), 0);
    assert_eq!(g.cell_coords_count(), 0);
}

#[test]
fn graph_update_size_blanks_buffers() {
    let mut g = Graph::new();
    g.update_size(3, 4);
    assert_eq!(g.grid_line_coords_count(), 2 * (3 + 4 + 2));
    assert_eq!(g.cell_coords_count(), 6 * 3 * 4);
}

#[test]
fn grid_line_layout() {
    let mut u = Universe::new(3, 4);
    let lines = u.grid_line_coords();
    assert_eq!(lines.len(), 3 + 4 + 2);
    for (k, line) in lines.iter().enumerate() {
        if k <= 3 {
            assert!(line.vertical);
            assert_eq!(line.index, k as u32);
        } else {
            assert!(!line.vertical);
            assert_eq!(line.index, (k - 4) as u32);
        }
    }
    assert_eq!(u.grid_line_coords_count(), 4 * (3 + 4 + 2));
}

#[test]
fn cell_rects_match_population() {
    let mut u = Universe::new(4, 4);
    let rects = u.cell_coords();
    let expected: Vec<(u32, u32)> = (0..16u32)
        .filter(|i| i % 2 == 0 || i % 7 == 0)
        .map(|i| (i / 4, i % 4))
        .collect();
    assert_eq!(rects.len(), expected.len());
    for (rect, (row, col)) in rects.iter().zip(expected.iter()) {
        assert_eq!(rect.row, *row);
        assert_eq!(rect.col, *col);
    }
    assert_eq!(u.cell_coords_count(), 12 * expected.len() as u32);
}

#[test]
fn cell_rects_single_cell() {
    let mut u = Universe::new(3, 3);
    let flips = vec![false; 9];
    u.random_reset(&flips);
    u.set_cells(&vec![(2, 1)]);
    let rects = u.cell_coords();
    assert_eq!(rects.len(), 1);
    assert_eq!(rects[0].row, 2);
    assert_eq!(rects[0].col, 1);
    assert_eq!(u.cell_coords_count(), 12);
}

#[test]
fn cell_rect_count_tracks_last_fetch() {
    let mut u = Universe::new(3, 3);
    let flips = vec![false; 9];
    u.random_reset(&flips);
    assert_eq!(u.cell_coords_count(), 0);
    u.cell_coords();
    assert_eq!(u.cell_coords_count(), 0);
    u.toggle_cell(4);
    u.cell_coords();
    assert_eq!(u.cell_coords_count(), 12);
}
