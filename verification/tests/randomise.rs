use life_rs::Grid;

#[test]
fn randomise_keeps_the_dimensions() {
    let mut grid = Grid::new(9, 4);
    grid.randomise(1, 5);
    assert_eq!(grid.width(), 9);
    assert_eq!(grid.height(), 4);
    assert_eq!(grid.iter().len(), 36);
    assert_eq!(grid.iter_rows().len(), 4);
}

#[test]
fn randomise_with_no_chance_kills_every_cell() {
    let mut grid = Grid::new(6, 5);
    for y in 0..5 {
        for x in 0..6 {
            grid.set(x, y, true);
        }
    }
    grid.randomise(0, 7);
    assert!(grid.iter().iter().all(|c| !c.2));
}

#[test]
fn randomise_with_full_chance_wakes_every_cell() {
    let mut grid = Grid::new(6, 5);
    grid.randomise(7, 7);
    assert!(grid.iter().iter().all(|c| c.2));
    grid.randomise(u32::MAX, u32::MAX);
    assert!(grid.iter().iter().all(|c| c.2));
}

#[test]
fn randomise_with_an_even_chance_gives_both_states() {
    // 4000 cells all alike has a chance of 2 in 2^4000
    let mut grid = Grid::new(80, 50);
    grid.randomise(1, 2);
    let alive = grid.iter().iter().filter(|c| c.2).count();
    assert!(alive > 0);
    assert!(alive < 4000);
}

#[test]
fn randomise_draws_anew_each_time() {
    // two runs of 4000 even draws agree with a chance of 1 in 2^4000
    let mut first = Grid::new(80, 50);
    let mut second = Grid::new(80, 50);
    first.randomise(1, 2);
    second.randomise(1, 2);
    assert_ne!(first.iter(), second.iter());
}
