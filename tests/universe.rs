use game_of_life::{Cell, Universe, UniverseError};

fn dead_universe(width: u32, height: u32) -> Universe {
    let mut u = Universe::new();
    u.set_width(width).unwrap();
    u.set_height(height).unwrap();
    u
}

fn alive_positions(u: &Universe) -> Vec<(u32, u32)> {
    let mut out = Vec::new();
    for row in 0..u.height() {
        for column in 0..u.width() {
            let idx = u.get_index(row, column).unwrap();
            if u.get_cells()[idx] == Cell::Alive {
                out.push((row, column));
            }
        }
    }
    out
}

#[test]
fn new_has_default_size_and_seed() {
    let u = Universe::new();
    assert_eq!(u.width(), 64);
    assert_eq!(u.height(), 64);
    let cells = u.get_cells();
    assert_eq!(cells.len(), 64 * 64);
    for (i, cell) in cells.iter().enumerate() {
        let expected = if i % 2 == 0 || i % 7 == 0 { Cell::Alive } else { Cell::Dead };
        assert_eq!(*cell, expected, "cell {}", i);
    }
    assert_eq!(cells[7], Cell::Alive);
    assert_eq!(cells[9], Cell::Dead);
}

#[test]
fn dimensions_hold_after_every_operation() {
    let mut u = Universe::new();
    assert_eq!(u.get_cells().len(), (u.width() * u.height()) as usize);
    u.set_width(10).unwrap();
    assert_eq!(u.get_cells().len(), 10 * 64);
    u.set_height(3).unwrap();
    assert_eq!(u.get_cells().len(), 30);
    u.set_cells(&[(0, 0), (1, 1), (2, 2)]).unwrap();
    u.tick();
    assert_eq!(u.get_cells().len(), 30);
    assert_eq!(u.width(), 10);
    assert_eq!(u.height(), 3);
}

#[test]
fn set_width_clears_all_cells() {
    let mut u = Universe::new();
    assert_eq!(u.set_width(32), Ok(()));
    assert_eq!(u.width(), 32);
    assert_eq!(u.get_cells().len(), 32 * 64);
    assert!(u.get_cells().iter().all(|c| *c == Cell::Dead));
}

#[test]
fn set_height_clears_all_cells() {
    let mut u = dead_universe(5, 5);
    u.set_cells(&[(1, 1), (2, 2), (4, 4)]).unwrap();
    assert_eq!(u.set_height(5), Ok(()));
    assert!(u.get_cells().iter().all(|c| *c == Cell::Dead));
    assert_eq!(u.get_cells().len(), 25);
}

#[test]
fn zero_dimension_is_refused() {
    let mut u = dead_universe(4, 4);
    u.set_cells(&[(1, 2)]).unwrap();
    assert_eq!(u.set_width(0), Err(UniverseError::ZeroDimension));
    assert_eq!(u.set_height(0), Err(UniverseError::ZeroDimension));
    assert_eq!(u.width(), 4);
    assert_eq!(u.height(), 4);
    assert_eq!(alive_positions(&u), vec![(1, 2)]);
}

#[test]
fn oversized_grid_is_refused() {
    let mut u = dead_universe(4, 4);
    assert_eq!(u.set_width(u32::MAX), Err(UniverseError::TooLarge));
    assert_eq!(u.set_height(1 << 31), Err(UniverseError::TooLarge));
    assert_eq!(u.width(), 4);
    assert_eq!(u.height(), 4);
    assert_eq!(u.get_cells().len(), 16);
}

#[test]
fn get_index_is_row_major() {
    let u = dead_universe(5, 3);
    assert_eq!(u.get_index(0, 0), Ok(0));
    assert_eq!(u.get_index(0, 4), Ok(4));
    assert_eq!(u.get_index(1, 0), Ok(5));
    assert_eq!(u.get_index(2, 3), Ok(13));
}

#[test]
fn get_index_out_of_range_is_refused() {
    let u = dead_universe(5, 3);
    assert_eq!(u.get_index(3, 0), Err(UniverseError::OutOfRange));
    assert_eq!(u.get_index(0, 5), Err(UniverseError::OutOfRange));
}

#[test]
fn neighbour_count_wraps_around_edges() {
    let mut u = dead_universe(5, 4);
    // Neighbours of (0, 0) across both edges: (3, 4), (3, 0), (0, 4).
    u.set_cells(&[(3, 4), (3, 0), (0, 4), (1, 1)]).unwrap();
    assert_eq!(u.live_neighbour_count(0, 0), 4);
    assert_eq!(u.live_neighbour_count(2, 2), 1);
    assert_eq!(u.live_neighbour_count(3, 4), 2);
}

#[test]
fn neighbour_count_is_eight_when_all_alive() {
    let mut u = dead_universe(3, 3);
    let mut all = Vec::new();
    for r in 0..3 {
        for c in 0..3 {
            all.push((r, c));
        }
    }
    u.set_cells(&all).unwrap();
    for r in 0..3 {
        for c in 0..3 {
            assert_eq!(u.live_neighbour_count(r, c), 8);
        }
    }
}

#[test]
fn neighbour_count_stays_in_range() {
    let u = Universe::new();
    for r in 0..u.height() {
        for c in 0..u.width() {
            assert!(u.live_neighbour_count(r, c) <= 8);
        }
    }
}

#[test]
fn single_cell_grid_has_no_neighbours() {
    let mut u = dead_universe(1, 1);
    u.set_cells(&[(0, 0)]).unwrap();
    assert_eq!(u.live_neighbour_count(0, 0), 0);
    u.tick();
    assert_eq!(u.get_cells(), &[Cell::Dead][..]);
}

#[test]
fn single_row_wraps_within_the_row() {
    let mut u = dead_universe(5, 1);
    u.set_cells(&[(0, 1), (0, 4)]).unwrap();
    // Column 0 has (0, 4) on its left and (0, 1) on its right.
    assert_eq!(u.live_neighbour_count(0, 0), 6);
    assert_eq!(u.live_neighbour_count(0, 2), 3);
    // Column 1 itself is alive; only column 0 and column 2 count.
    assert_eq!(u.live_neighbour_count(0, 1), 0);
}

#[test]
fn single_column_wraps_within_the_column() {
    let mut u = dead_universe(1, 4);
    u.set_cells(&[(3, 0)]).unwrap();
    assert_eq!(u.live_neighbour_count(0, 0), 3);
    assert_eq!(u.live_neighbour_count(2, 0), 3);
    assert_eq!(u.live_neighbour_count(1, 0), 0);
    assert_eq!(u.live_neighbour_count(3, 0), 0);
}

#[test]
fn isolated_cell_dies() {
    let mut u = dead_universe(3, 3);
    u.set_cells(&[(1, 1)]).unwrap();
    u.tick();
    assert!(alive_positions(&u).is_empty());
}

#[test]
fn block_is_still() {
    let mut u = dead_universe(6, 6);
    let block = [(2, 2), (2, 3), (3, 2), (3, 3)];
    u.set_cells(&block).unwrap();
    u.tick();
    assert_eq!(alive_positions(&u), block.to_vec());
}

#[test]
fn blinker_oscillates() {
    let mut u = dead_universe(5, 5);
    u.set_cells(&[(2, 1), (2, 2), (2, 3)]).unwrap();
    u.tick();
    assert_eq!(alive_positions(&u), vec![(1, 2), (2, 2), (3, 2)]);
    u.tick();
    assert_eq!(alive_positions(&u), vec![(2, 1), (2, 2), (2, 3)]);
}

#[test]
fn dead_cell_with_three_neighbours_is_born() {
    let mut u = dead_universe(6, 6);
    u.set_cells(&[(1, 1), (1, 2), (2, 1)]).unwrap();
    u.tick();
    assert_eq!(alive_positions(&u), vec![(1, 1), (1, 2), (2, 1), (2, 2)]);
}

#[test]
fn crowded_cell_dies() {
    let mut u = dead_universe(5, 5);
    // The centre has four live neighbours.
    u.set_cells(&[(2, 2), (1, 2), (3, 2), (2, 1), (2, 3)]).unwrap();
    assert_eq!(u.live_neighbour_count(2, 2), 4);
    u.tick();
    let idx = u.get_index(2, 2).unwrap();
    assert_eq!(u.get_cells()[idx], Cell::Dead);
}

#[test]
fn identical_universes_stay_identical() {
    let mut a = Universe::new();
    let mut b = Universe::new();
    assert_eq!(a.get_cells(), b.get_cells());
    for _ in 0..3 {
        a.tick();
        b.tick();
        assert_eq!(a.get_cells(), b.get_cells());
    }
    a.set_width(12).unwrap();
    b.set_width(12).unwrap();
    assert_eq!(a.get_cells(), b.get_cells());
    a.set_height(9).unwrap();
    b.set_height(9).unwrap();
    a.set_cells(&[(0, 1), (1, 2), (2, 0), (2, 1), (2, 2)]).unwrap();
    b.set_cells(&[(0, 1), (1, 2), (2, 0), (2, 1), (2, 2)]).unwrap();
    assert_eq!(a.get_cells(), b.get_cells());
    for _ in 0..10 {
        a.tick();
        b.tick();
        assert_eq!(a.get_cells(), b.get_cells());
    }
    assert_eq!(a.render(), b.render());
}

#[test]
fn render_small_grid() {
    let mut u = dead_universe(3, 2);
    u.set_cells(&[(0, 0), (1, 2)]).unwrap();
    assert_eq!(u.render(), "◼◻◻\n◻◻◼\n");
}

#[test]
fn render_single_dead_cell() {
    let u = dead_universe(1, 1);
    assert_eq!(u.render(), "◻\n");
}

#[test]
fn render_matches_cells() {
    let u = Universe::new();
    let text = u.render();
    let lines: Vec<&str> = text.lines().collect();
    assert_eq!(lines.len(), u.height() as usize);
    for (r, line) in lines.iter().enumerate() {
        let glyphs: Vec<char> = line.chars().collect();
        assert_eq!(glyphs.len(), u.width() as usize);
        for (c, g) in glyphs.iter().enumerate() {
            let cell = u.get_cells()[r * u.width() as usize + c];
            let expected = if cell == Cell::Alive { '◼' } else { '◻' };
            assert_eq!(*g, expected);
        }
    }
}

#[test]
fn set_cells_sets_exactly_the_named_cells() {
    let mut u = Universe::new();
    let before = u.get_cells().to_vec();
    let named = [(0, 1), (5, 3), (63, 63), (0, 1)];
    u.set_cells(&named).unwrap();
    let after = u.get_cells();
    for r in 0..64u32 {
        for c in 0..64u32 {
            let i = (r * 64 + c) as usize;
            if named.contains(&(r, c)) {
                assert_eq!(after[i], Cell::Alive);
            } else {
                assert_eq!(after[i], before[i]);
            }
        }
    }
}

#[test]
fn set_cells_out_of_range_changes_nothing() {
    let mut u = dead_universe(4, 4);
    assert_eq!(u.set_cells(&[(0, 0), (4, 0)]), Err(UniverseError::OutOfRange));
    assert_eq!(u.set_cells(&[(1, 4)]), Err(UniverseError::OutOfRange));
    assert!(alive_positions(&u).is_empty());
}

#[test]
fn set_cells_with_empty_batch_changes_nothing() {
    let mut u = Universe::new();
    let before = u.get_cells().to_vec();
    assert_eq!(u.set_cells(&[]), Ok(()));
    assert_eq!(u.get_cells(), &before[..]);
}

#[test]
fn cells_view_matches_get_cells() {
    let u = Universe::new();
    assert_eq!(u.cells(), u.get_cells());
}

#[test]
fn cell_symbols_differ() {
    assert_eq!(Cell::Alive.symbol(), '◼');
    assert_eq!(Cell::Dead.symbol(), '◻');
    assert!(Cell::Alive.is_alive());
    assert!(!Cell::Dead.is_alive());
}
