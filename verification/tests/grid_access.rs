use life_rs::{modulo, Grid, GridError};

fn filled(width: usize, height: usize, alive: &[(usize, usize)]) -> Grid {
    let mut grid = Grid::new(width, height);
    grid.set_cells(alive, 0, 0);
    grid
}

#[test]
fn new_grid_has_its_dimensions() {
    let grid = Grid::new(7, 4);
    assert_eq!(grid.width(), 7);
    assert_eq!(grid.height(), 4);
}

#[test]
fn new_grid_is_all_dead() {
    for (w, h) in [(1usize, 1usize), (1, 5), (5, 1), (3, 4), (80, 40)] {
        let grid = Grid::new(w, h);
        for y in 0..h {
            for x in 0..w {
                assert!(!grid.get(x, y), "cell ({}, {}) of a new {}x{} grid", x, y, w, h);
            }
        }
        assert!(grid.iter().iter().all(|&(_, _, alive)| !alive));
    }
}

#[test]
fn try_new_makes_the_same_grid_as_new() {
    let grid = match Grid::try_new(6, 2) {
        Ok(grid) => grid,
        Err(e) => panic!("6x2 was refused: {:?}", e),
    };
    assert_eq!(grid.width(), 6);
    assert_eq!(grid.height(), 2);
    assert_eq!(grid.iter().len(), 12);
    assert!(grid.iter().iter().all(|&(_, _, alive)| !alive));
}

#[test]
fn try_new_refuses_zero_width() {
    assert!(matches!(Grid::try_new(0, 5), Err(GridError::InvalidDimensions)));
}

#[test]
fn try_new_refuses_zero_height() {
    assert!(matches!(Grid::try_new(5, 0), Err(GridError::InvalidDimensions)));
}

#[test]
fn try_new_refuses_zero_by_zero() {
    assert!(matches!(Grid::try_new(0, 0), Err(GridError::InvalidDimensions)));
}

#[test]
fn try_new_refuses_zero_before_size() {
    assert!(matches!(Grid::try_new(0, usize::MAX), Err(GridError::InvalidDimensions)));
}

#[test]
fn try_new_refuses_an_area_that_overflows() {
    assert!(matches!(Grid::try_new(usize::MAX, 2), Err(GridError::TooLarge)));
    assert!(matches!(Grid::try_new(usize::MAX, usize::MAX), Err(GridError::TooLarge)));
}

#[test]
fn try_new_refuses_an_area_past_the_signed_range() {
    let past = (isize::MAX as usize) + 1;
    assert!(matches!(Grid::try_new(past, 1), Err(GridError::TooLarge)));
    assert!(matches!(Grid::try_new(1, past), Err(GridError::TooLarge)));
}

#[test]
fn grid_error_variants_differ() {
    assert_ne!(GridError::InvalidDimensions, GridError::TooLarge);
    assert_eq!(format!("{:?}", GridError::InvalidDimensions), "InvalidDimensions");
}

#[test]
fn modulo_of_non_negative_values() {
    assert_eq!(modulo(0, 5), 0);
    assert_eq!(modulo(4, 5), 4);
    assert_eq!(modulo(5, 5), 0);
    assert_eq!(modulo(13, 5), 3);
    assert_eq!(modulo(7, 1), 0);
}

#[test]
fn modulo_of_negative_values_is_euclidean() {
    assert_eq!(modulo(-1, 5), 4);
    assert_eq!(modulo(-5, 5), 0);
    assert_eq!(modulo(-6, 5), 4);
    assert_eq!(modulo(-7, 3), 2);
    assert_eq!(modulo(-1, 1), 0);
}

#[test]
fn modulo_at_the_ends_of_the_range() {
    assert_eq!(modulo(isize::MIN, 1), 0);
    assert_eq!(modulo(isize::MIN, 2), 0);
    assert_eq!(modulo(isize::MIN, 3), (isize::MIN.rem_euclid(3)) as usize);
    assert_eq!(modulo(isize::MAX, isize::MAX), 0);
    assert_eq!(modulo(isize::MIN, isize::MAX), (isize::MAX - 1) as usize);
    assert_eq!(modulo(-1, isize::MAX), (isize::MAX - 1) as usize);
}

#[test]
fn modulo_agrees_with_rem_euclid() {
    for n in 1..12isize {
        for a in -40..40isize {
            assert_eq!(modulo(a, n), a.rem_euclid(n) as usize, "{} mod {}", a, n);
        }
    }
}

#[test]
fn set_then_get_reads_the_value_back() {
    let mut grid = Grid::new(4, 3);
    grid.set(2, 1, true);
    assert!(grid.get(2, 1));
    grid.set(2, 1, false);
    assert!(!grid.get(2, 1));
}

#[test]
fn set_changes_one_cell_only() {
    let mut grid = Grid::new(4, 3);
    grid.set(3, 2, true);
    for y in 0..3 {
        for x in 0..4 {
            assert_eq!(grid.get(x, y), (x, y) == (3, 2));
        }
    }
}

#[test]
fn cells_are_stored_row_after_row() {
    let mut grid = Grid::new(4, 3);
    grid.set(1, 2, true);
    let cells = grid.iter();
    assert_eq!(cells.len(), 12);
    for (i, &(x, y, alive)) in cells.iter().enumerate() {
        assert_eq!(x, i % 4);
        assert_eq!(y, i / 4);
        assert_eq!(alive, i == 2 * 4 + 1);
    }
}

#[test]
fn unsigned_coordinates_wrap_by_width() {
    let grid = filled(5, 3, &[(2, 1)]);
    for k in 0..6usize {
        assert!(grid.get(2 + k * 5, 1));
        assert!(!grid.get(3 + k * 5, 1));
    }
}

#[test]
fn unsigned_coordinates_wrap_by_height() {
    let grid = filled(5, 3, &[(2, 1)]);
    for k in 0..6usize {
        assert!(grid.get(2, 1 + k * 3));
        assert!(!grid.get(2, 2 + k * 3));
    }
}

#[test]
fn signed_coordinates_wrap_by_width_both_ways() {
    let grid = filled(5, 3, &[(2, 1)]);
    for k in -6..6isize {
        assert!(grid.get_signed(2 + k * 5, 1), "k = {}", k);
        assert!(!grid.get_signed(1 + k * 5, 1), "k = {}", k);
    }
}

#[test]
fn signed_coordinates_wrap_by_height_both_ways() {
    let grid = filled(5, 3, &[(2, 1)]);
    for k in -6..6isize {
        assert!(grid.get_signed(2, 1 + k * 3), "k = {}", k);
        assert!(!grid.get_signed(2, k * 3), "k = {}", k);
    }
}

#[test]
fn signed_and_unsigned_coordinates_address_the_same_cell() {
    let grid = filled(6, 4, &[(0, 0), (5, 3), (2, 1), (4, 2)]);
    for y in 0..9usize {
        for x in 0..14usize {
            assert_eq!(grid.get(x, y), grid.get_signed(x as isize, y as isize));
        }
    }
}

#[test]
fn minus_one_minus_one_is_the_last_cell() {
    for (w, h) in [(1usize, 1usize), (3, 3), (5, 2), (2, 7)] {
        let mut grid = Grid::new(w, h);
        assert_eq!(grid.get_signed(-1, -1), grid.get(w - 1, h - 1));
        grid.set(w - 1, h - 1, true);
        assert!(grid.get_signed(-1, -1));
        assert_eq!(grid.get_signed(-1, -1), grid.get(w - 1, h - 1));
    }
}

#[test]
fn minus_one_zero_is_the_last_column_of_the_first_row() {
    let mut grid = Grid::new(4, 3);
    grid.set_signed(-1, 0, true);
    assert!(grid.get(3, 0));
    assert_eq!(grid.iter().iter().filter(|c| c.2).count(), 1);
}

#[test]
fn set_signed_writes_where_get_reads() {
    let mut grid = Grid::new(4, 3);
    grid.set_signed(-2, -4, true);
    assert!(grid.get(2, 2));
    assert!(grid.get_signed(2, 2));
    grid.set_signed(6, 5, false);
    assert!(!grid.get(2, 2));
}

#[test]
fn signed_access_at_the_ends_of_the_range() {
    let mut grid = Grid::new(3, 2);
    let x = isize::MIN.rem_euclid(3) as usize;
    grid.set_signed(isize::MIN, isize::MAX, true);
    assert!(grid.get(x, (isize::MAX % 2) as usize));
    assert!(grid.get_signed(isize::MIN, isize::MAX));
}

#[test]
fn unsigned_access_at_the_end_of_the_range() {
    let mut grid = Grid::new(3, 2);
    grid.set(usize::MAX, usize::MAX, true);
    assert!(grid.get(usize::MAX % 3, usize::MAX % 2));
}

#[test]
fn set_cells_single_origin() {
    let mut grid = Grid::new(4, 4);
    grid.set_cells(&[(0, 0)], 0, 0);
    assert!(grid.get(0, 0));
    for y in 0..4 {
        for x in 0..4 {
            if (x, y) != (0, 0) {
                assert!(!grid.get(x, y));
            }
        }
    }
}

#[test]
fn set_cells_adds_the_offsets() {
    let mut grid = Grid::new(6, 5);
    grid.set_cells(&[(0, 0), (1, 0), (0, 2)], 2, 1);
    for y in 0..5 {
        for x in 0..6 {
            let expected = [(2, 1), (3, 1), (2, 3)].contains(&(x, y));
            assert_eq!(grid.get(x, y), expected, "({}, {})", x, y);
        }
    }
}

#[test]
fn set_cells_wraps_around_the_grid() {
    let mut grid = Grid::new(4, 3);
    grid.set_cells(&[(3, 2), (5, 7)], 2, 2);
    // (5, 4) -> (1, 1) and (7, 9) -> (3, 0)
    for y in 0..3 {
        for x in 0..4 {
            let expected = [(1, 1), (3, 0)].contains(&(x, y));
            assert_eq!(grid.get(x, y), expected, "({}, {})", x, y);
        }
    }
}

#[test]
fn set_cells_keeps_cells_that_were_alive() {
    let mut grid = Grid::new(4, 3);
    grid.set(0, 1, true);
    grid.set_cells(&[(1, 1)], 0, 0);
    assert!(grid.get(0, 1));
    assert!(grid.get(1, 1));
    assert_eq!(grid.iter().iter().filter(|c| c.2).count(), 2);
}

#[test]
fn set_cells_with_no_coordinates_changes_nothing() {
    let mut grid = Grid::new(4, 3);
    grid.set(0, 1, true);
    grid.set_cells(&[], 3, 3);
    assert_eq!(grid.iter().iter().filter(|c| c.2).count(), 1);
    assert!(grid.get(0, 1));
}

#[test]
fn set_cells_with_a_repeated_coordinate() {
    let mut grid = Grid::new(4, 3);
    grid.set_cells(&[(1, 1), (1, 1), (5, 4)], 0, 0);
    assert_eq!(grid.iter().iter().filter(|c| c.2).count(), 1);
    assert!(grid.get(1, 1));
}

#[test]
fn set_cells_sum_past_the_range_wraps_first() {
    let mut grid = Grid::new(5, 3);
    // usize::MAX + 3 wraps to 2, usize::MAX + 2 to 1
    grid.set_cells(&[(usize::MAX, usize::MAX)], 3, 2);
    for y in 0..3 {
        for x in 0..5 {
            assert_eq!(grid.get(x, y), (x, y) == (2, 1), "({}, {})", x, y);
        }
    }
}

#[test]
fn iter_rows_gives_height_rows_of_width_cells() {
    let grid = Grid::new(7, 3);
    let rows = grid.iter_rows();
    assert_eq!(rows.len(), 3);
    for row in rows.iter() {
        assert_eq!(row.len(), 7);
    }
}

#[test]
fn iter_rows_gives_the_cells_row_after_row() {
    let grid = filled(3, 2, &[(0, 0), (2, 0), (1, 1)]);
    let rows = grid.iter_rows();
    assert_eq!(rows, vec![&[true, false, true][..], &[false, true, false][..]]);
}

#[test]
fn iter_rows_can_be_asked_again() {
    let grid = filled(3, 2, &[(1, 1)]);
    assert_eq!(grid.iter_rows(), grid.iter_rows());
    assert_eq!(grid.iter(), grid.iter());
}

#[test]
fn iter_gives_coordinates_and_state() {
    let grid = filled(3, 2, &[(2, 0), (0, 1)]);
    assert_eq!(
        grid.iter(),
        vec![
            (0, 0, false),
            (1, 0, false),
            (2, 0, true),
            (0, 1, true),
            (1, 1, false),
            (2, 1, false),
        ]
    );
}

#[test]
fn iter_agrees_with_get() {
    let grid = filled(5, 4, &[(0, 0), (4, 3), (2, 2), (1, 3)]);
    for (x, y, alive) in grid.iter() {
        assert_eq!(alive, grid.get(x, y));
    }
}

#[test]
fn one_by_one_grid_wraps_onto_itself() {
    let mut grid = Grid::new(1, 1);
    grid.set(17, 23, true);
    assert!(grid.get(0, 0));
    assert!(grid.get_signed(-9, 4));
}

#[test]
fn fill_overwrites_every_cell_row_after_row() {
    let mut grid = Grid::new(3, 2);
    grid.set(1, 1, true);
    grid.fill(&[true, false, false, false, false, true]);
    assert_eq!(
        grid.iter_rows(),
        vec![&[true, false, false][..], &[false, false, true][..]]
    );
    assert!(grid.get(0, 0));
    assert!(grid.get(2, 1));
    assert!(!grid.get(1, 1));
}

#[test]
fn fill_with_too_few_states_leaves_the_rest() {
    let mut grid = Grid::new(3, 2);
    grid.set(2, 1, true);
    grid.set(0, 0, true);
    grid.fill(&[false, true]);
    assert_eq!(
        grid.iter_rows(),
        vec![&[false, true, false][..], &[false, false, true][..]]
    );
}

#[test]
fn fill_with_too_many_states_uses_the_first() {
    let mut grid = Grid::new(2, 1);
    grid.fill(&[true, false, true, true]);
    assert_eq!(grid.iter(), vec![(0, 0, true), (1, 0, false)]);
    assert_eq!(grid.width(), 2);
    assert_eq!(grid.height(), 1);
}

#[test]
fn fill_with_no_states_changes_nothing() {
    let mut grid = Grid::new(2, 2);
    grid.set(1, 0, true);
    let before = grid.iter();
    grid.fill(&[]);
    assert_eq!(grid.iter(), before);
}
