use life_grid::Universe;

fn clear(u: &mut Universe) {
    let size = (u.width() * u.height()) as usize;
    let flips = vec![false; size];
    u.random_reset(&flips);
}

fn alive_cells(u: &Universe) -> Vec<(u32, u32)> {
    let w = u.width();
    let h = u.height();
    let cells = u.get_cells();
    let mut out = Vec::new();
    for row in 0..h {
        for col in 0..w {
            if cells.contains((row * w + col) as usize) {
                out.push((row, col));
            }
        }
    }
    out
}

#[test]
fn new_seed_population() {
    let u = Universe::new(8, 8);
    let cells = u.get_cells();
    let mut count = 0;
    for i in 0..64usize {
        let expected = i % 2 == 0 || i % 7 == 0;
        assert_eq!(cells.contains(i), expected);
        if expected {
            count += 1;
        }
    }
    assert_eq!(count, 37);
}

#[test]
fn grid_line_count_idempotent() {
    let mut u = Universe::new(6, 9);
    assert_eq!(u.grid_line_coords_count(), u.grid_line_coords_count());
    assert_eq!(u.grid_line_coords_count(), 0);
    u.grid_line_coords();
    let first = u.grid_line_coords_count();
    let second = u.grid_line_coords_count();
    assert_eq!(first, second);
    assert_eq!(first, 4 * (6 + 9 + 2));
}

#[test]
fn toroidal_corner_wraparound() {
    let mut u = Universe::new(4, 5);
    clear(&mut u);
    u.set_cells(&vec![(0, 0)]);
    assert_eq!(u.live_neighbour_count(4, 3), 1);
    assert_eq!(u.live_neighbour_count(4, 0), 1);
    assert_eq!(u.live_neighbour_count(0, 3), 1);
    assert_eq!(u.live_neighbour_count(2, 2), 0);
}

#[test]
fn lone_center_cell_dies() {
    let mut u = Universe::new(3, 3);
    clear(&mut u);
    u.set_cells(&vec![(1, 1)]);
    u.tick(1);
    assert_eq!(alive_cells(&u), Vec::<(u32, u32)>::new());
}

#[test]
fn blinker_oscillates() {
    let mut u = Universe::new(5, 5);
    clear(&mut u);
    u.set_cells(&vec![(1, 0), (1, 1), (1, 2)]);
    u.tick(1);
    assert_eq!(alive_cells(&u), vec![(0, 1), (1, 1), (2, 1)]);
    u.tick(1);
    assert_eq!(alive_cells(&u), vec![(1, 0), (1, 1), (1, 2)]);
}

#[test]
fn blinker_two_iterations_in_one_call() {
    let mut u = Universe::new(5, 5);
    clear(&mut u);
    u.set_cells(&vec![(1, 0), (1, 1), (1, 2)]);
    u.tick(2);
    assert_eq!(alive_cells(&u), vec![(1, 0), (1, 1), (1, 2)]);
}

#[test]
fn glider_translates_diagonally() {
    let mut u = Universe::new(20, 20);
    clear(&mut u);
    u.insert_glider(10, 10);
    assert_eq!(
        alive_cells(&u),
        vec![(9, 9), (10, 10), (10, 11), (11, 9), (11, 10)]
    );
    u.tick(4);
    assert_eq!(
        alive_cells(&u),
        vec![(10, 10), (11, 11), (11, 12), (12, 10), (12, 11)]
    );
}

#[test]
fn glider_wraps_at_origin() {
    let mut u = Universe::new(5, 5);
    clear(&mut u);
    u.insert_glider(0, 0);
    assert_eq!(
        alive_cells(&u),
        vec![(0, 0), (0, 1), (1, 0), (1, 4), (4, 4)]
    );
}

#[test]
fn pulsar_population() {
    let mut u = Universe::new(20, 20);
    clear(&mut u);
    u.insert_pulsar(10, 10);
    let cells = alive_cells(&u);
    assert_eq!(cells.len(), 48);
    assert!(cells.contains(&(4, 6)));
    assert!(cells.contains(&(16, 14)));
    assert!(!cells.contains(&(10, 10)));
}

#[test]
fn set_cells_preserves_existing() {
    let mut u = Universe::new(4, 4);
    clear(&mut u);
    u.set_cells(&vec![(0, 0)]);
    u.set_cells(&vec![(2, 3)]);
    assert_eq!(alive_cells(&u), vec![(0, 0), (2, 3)]);
}

#[test]
fn toggle_cell_flips_one_bit() {
    let mut u = Universe::new(4, 4);
    clear(&mut u);
    u.toggle_cell(5);
    assert_eq!(alive_cells(&u), vec![(1, 1)]);
    u.toggle_cell(5);
    assert_eq!(alive_cells(&u), Vec::<(u32, u32)>::new());
}

#[test]
fn random_reset_writes_exact_flips() {
    let mut u = Universe::new(3, 2);
    let flips = vec![true, false, false, true, true, false];
    u.random_reset(&flips);
    let cells = u.get_cells();
    for (i, &f) in flips.iter().enumerate() {
        assert_eq!(cells.contains(i), f);
    }
}

#[test]
fn set_width_reseeds() {
    let mut u = Universe::new(4, 4);
    clear(&mut u);
    u.set_width(5);
    assert_eq!(u.width(), 5);
    assert_eq!(u.height(), 4);
    let cells = u.get_cells();
    let mut count = 0;
    for i in 0..20usize {
        assert_eq!(cells.contains(i), i % 2 == 0 || i % 7 == 0);
        if cells.contains(i) {
            count += 1;
        }
    }
    assert_eq!(count, 11);
}

#[test]
fn set_height_reseeds() {
    let mut u = Universe::new(4, 4);
    u.tick(3);
    u.set_height(4);
    assert_eq!(u.width(), 4);
    assert_eq!(u.height(), 4);
    let cells = u.get_cells();
    for i in 0..16usize {
        assert_eq!(cells.contains(i), i % 2 == 0 || i % 7 == 0);
    }
}

#[test]
fn render_draws_rows() {
    let mut u = Universe::new(2, 2);
    clear(&mut u);
    assert_eq!(u.render(), "\u{25fb}\u{25fb}\n\u{25fb}\u{25fb}\n");
    u.set_cells(&vec![(0, 0)]);
    assert_eq!(u.render(), "\u{25fc}\u{25fb}\n\u{25fb}\u{25fb}\n");
}

#[test]
fn render_fresh_grid() {
    let u = Universe::new(2, 2);
    assert_eq!(u.render(), "\u{25fc}\u{25fb}\n\u{25fc}\u{25fb}\n");
}
