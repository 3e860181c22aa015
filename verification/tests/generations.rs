use game_of_life::Universe;

fn dead(width: u32, height: u32) -> Universe {
    Universe::new(width, height, || false).unwrap()
}

fn with_cells(width: u32, height: u32, cells: &[(u32, u32)]) -> Universe {
    let mut universe = dead(width, height);
    universe.set_cells(cells).unwrap();
    universe
}

fn is_alive(universe: &Universe, row: u32, col: u32) -> bool {
    let place = (row * universe.width() + col) as usize;
    (universe.get_cells()[place / 32] >> (place % 32)) & 1 == 1
}

fn live_cells(universe: &Universe) -> Vec<(u32, u32)> {
    let mut found = Vec::new();
    for row in 0..universe.height() {
        for col in 0..universe.width() {
            if is_alive(universe, row, col) {
                found.push((row, col));
            }
        }
    }
    found
}

#[test]
fn block_is_still_life() {
    let mut universe = with_cells(4, 4, &[(1, 1), (1, 2), (2, 1), (2, 2)]);
    let before = universe.get_cells();
    universe.tick();
    assert_eq!(universe.get_cells(), before);
    assert_eq!(live_cells(&universe), vec![(1, 1), (1, 2), (2, 1), (2, 2)]);
}

#[test]
fn block_over_the_edge_is_still_life() {
    let mut universe = with_cells(6, 5, &[(4, 5), (4, 0), (0, 5), (0, 0)]);
    let before = universe.get_cells();
    universe.tick();
    assert_eq!(universe.get_cells(), before);
    assert_eq!(live_cells(&universe), vec![(0, 0), (0, 5), (4, 0), (4, 5)]);
}

#[test]
fn blinker_turns_and_returns() {
    let mut universe = with_cells(5, 5, &[(2, 1), (2, 2), (2, 3)]);
    let start = universe.get_cells();
    universe.tick();
    assert_eq!(live_cells(&universe), vec![(1, 2), (2, 2), (3, 2)]);
    universe.tick();
    assert_eq!(live_cells(&universe), vec![(2, 1), (2, 2), (2, 3)]);
    assert_eq!(universe.get_cells(), start);
}

#[test]
fn blinker_on_the_smallest_grid_that_holds_it() {
    let mut universe = with_cells(4, 4, &[(0, 3), (0, 0), (0, 1)]);
    universe.tick();
    assert_eq!(live_cells(&universe), vec![(0, 0), (1, 0), (3, 0)]);
    universe.tick();
    assert_eq!(live_cells(&universe), vec![(0, 0), (0, 1), (0, 3)]);
}

#[test]
fn blinker_on_three_rows_does_not_return() {
    let mut universe = with_cells(5, 3, &[(1, 1), (1, 2), (1, 3)]);
    universe.tick();
    assert_eq!(live_cells(&universe), vec![(0, 2), (1, 2), (2, 2)]);
    universe.tick();
    assert_eq!(
        live_cells(&universe),
        vec![(0, 1), (0, 2), (0, 3), (1, 1), (1, 2), (1, 3), (2, 1), (2, 2), (2, 3)]
    );
}

#[test]
fn dead_cell_with_three_neighbours_is_born() {
    let mut universe = with_cells(5, 5, &[(1, 1), (1, 3), (3, 2)]);
    assert_eq!(universe.live_neighbour_count(2, 2), 3);
    universe.tick();
    assert!(is_alive(&universe, 2, 2));
}

#[test]
fn dead_cell_with_two_neighbours_stays_dead() {
    let mut universe = with_cells(5, 5, &[(1, 1), (3, 3)]);
    assert_eq!(universe.live_neighbour_count(2, 2), 2);
    universe.tick();
    assert!(!is_alive(&universe, 2, 2));
}

#[test]
fn dead_cell_with_four_neighbours_stays_dead() {
    let mut universe = with_cells(5, 5, &[(1, 1), (1, 3), (3, 1), (3, 3)]);
    assert_eq!(universe.live_neighbour_count(2, 2), 4);
    universe.tick();
    assert!(!is_alive(&universe, 2, 2));
}

#[test]
fn live_cell_with_one_neighbour_dies() {
    let mut universe = with_cells(5, 5, &[(2, 2), (2, 3)]);
    assert_eq!(universe.live_neighbour_count(2, 2), 1);
    universe.tick();
    assert_eq!(live_cells(&universe), vec![]);
}

#[test]
fn live_cell_with_two_or_three_neighbours_lives() {
    let mut universe = with_cells(6, 6, &[(1, 1), (2, 2), (3, 3)]);
    assert_eq!(universe.live_neighbour_count(2, 2), 2);
    universe.tick();
    assert_eq!(live_cells(&universe), vec![(2, 2)]);

    let mut universe = with_cells(6, 6, &[(1, 1), (2, 2), (3, 3), (1, 3)]);
    assert_eq!(universe.live_neighbour_count(2, 2), 3);
    universe.tick();
    assert!(is_alive(&universe, 2, 2));
}

#[test]
fn live_cell_with_four_neighbours_dies() {
    let mut universe = with_cells(5, 5, &[(2, 2), (1, 1), (1, 3), (3, 1), (3, 3)]);
    assert_eq!(universe.live_neighbour_count(2, 2), 4);
    universe.tick();
    assert!(!is_alive(&universe, 2, 2));
}

#[test]
fn corner_counts_cells_across_the_edges() {
    for n in [3u32, 4, 7, 64] {
        let diagonal = with_cells(n, n, &[(n - 1, n - 1)]);
        assert_eq!(diagonal.live_neighbour_count(0, 0), 1);
        let level = with_cells(n, n, &[(0, n - 1)]);
        assert_eq!(level.live_neighbour_count(0, 0), 1);
        let upright = with_cells(n, n, &[(n - 1, 0)]);
        assert_eq!(upright.live_neighbour_count(0, 0), 1);
        let far = with_cells(n, n, &[(n - 1, n - 1), (0, n - 1), (n - 1, 0), (n - 1, 1)]);
        assert_eq!(far.live_neighbour_count(0, 0), 4);
    }
}

#[test]
fn cells_across_the_edges_give_birth() {
    let mut universe = with_cells(6, 6, &[(5, 5), (0, 5), (5, 0)]);
    universe.tick();
    assert_eq!(live_cells(&universe), vec![(0, 0), (0, 5), (5, 0), (5, 5)]);
}

#[test]
fn neighbour_count_of_a_full_grid_is_eight() {
    let universe = Universe::new(5, 4, || true).unwrap();
    for row in 0..4 {
        for col in 0..5 {
            assert_eq!(universe.live_neighbour_count(row, col), 8);
        }
    }
}

#[test]
fn neighbour_count_on_two_by_two_counts_cells_again() {
    let universe = with_cells(2, 2, &[(1, 1)]);
    assert_eq!(universe.live_neighbour_count(0, 0), 4);
    assert_eq!(universe.live_neighbour_count(0, 1), 2);
    assert_eq!(universe.live_neighbour_count(1, 0), 2);
    assert_eq!(universe.live_neighbour_count(1, 1), 0);
}

#[test]
fn neighbour_count_on_a_single_row_leaves_out_zero_offsets() {
    let lone = Universe::new(1, 1, || true).unwrap();
    assert_eq!(lone.live_neighbour_count(0, 0), 5);
    let row = Universe::new(4, 1, || true).unwrap();
    assert_eq!(row.live_neighbour_count(0, 2), 7);
    let column = Universe::new(1, 4, || true).unwrap();
    assert_eq!(column.live_neighbour_count(2, 0), 7);
}

#[test]
fn tick_reads_the_former_generation_only() {
    let mut universe = with_cells(6, 6, &[(1, 2), (2, 3), (3, 1), (3, 2), (3, 3)]);
    universe.tick();
    assert_eq!(
        live_cells(&universe),
        vec![(2, 1), (2, 3), (3, 2), (3, 3), (4, 2)]
    );
}

#[test]
fn glider_moves_one_cell_in_four_generations() {
    let mut universe = with_cells(8, 8, &[(0, 1), (1, 2), (2, 0), (2, 1), (2, 2)]);
    for _ in 0..4 {
        universe.tick();
    }
    assert_eq!(
        live_cells(&universe),
        vec![(1, 2), (2, 3), (3, 1), (3, 2), (3, 3)]
    );
}

#[test]
fn glider_crosses_the_edges() {
    let mut universe = with_cells(6, 6, &[(0, 1), (1, 2), (2, 0), (2, 1), (2, 2)]);
    for _ in 0..24 {
        universe.tick();
    }
    assert_eq!(
        live_cells(&universe),
        vec![(0, 1), (1, 2), (2, 0), (2, 1), (2, 2)]
    );
}

#[test]
fn tick_is_deterministic() {
    let pattern = [(0, 0), (0, 1), (1, 5), (2, 3), (3, 3), (4, 3), (6, 6), (6, 0), (5, 6)];
    let mut first = with_cells(7, 7, &pattern);
    let mut second = with_cells(7, 7, &pattern);
    for _ in 0..10 {
        first.tick();
        second.tick();
        assert_eq!(first.get_cells(), second.get_cells());
    }
}

#[test]
fn tick_on_an_empty_grid_does_nothing() {
    let mut none = dead(0, 0);
    none.tick();
    assert_eq!(none.get_cells(), Vec::<u32>::new());
    let mut no_columns = dead(0, 3);
    no_columns.tick();
    assert_eq!(no_columns.get_cells(), Vec::<u32>::new());
    let mut all_dead = dead(9, 9);
    all_dead.tick();
    assert_eq!(all_dead.get_cells(), vec![0, 0, 0]);
}

#[test]
fn tick_keeps_the_bits_past_the_last_cell_clear() {
    let mut universe = Universe::new(3, 3, || true).unwrap();
    assert_eq!(universe.get_cells(), vec![0b1_1111_1111]);
    universe.tick();
    assert_eq!(universe.get_cells(), vec![0]);
    let mut universe = with_cells(3, 3, &[(0, 0), (1, 1), (2, 2)]);
    universe.tick();
    assert_eq!(universe.get_cells(), vec![0b1_1111_1111]);
}
