use game_of_life::{Cell, Universe};

fn get_init_universe() -> Universe {
    let mut universe = Universe::new();
    universe.set_width(5);
    universe.set_height(5);
    universe.set_cells(&[(1, 1), (2, 1), (3, 1)]);
    universe
}

fn cell(universe: &Universe, row: u32, col: u32) -> Cell {
    universe.get_cells()[universe.get_index(row, col)]
}

fn board(width: u32, height: u32, alive: &[(u32, u32)]) -> Universe {
    let mut universe = Universe::new();
    universe.set_width(width);
    universe.set_height(height);
    universe.set_cells(alive);
    universe
}

#[test]
fn it_should_work() {
    assert_eq!(0, 0);
}

#[test]
fn it_should_get_index() {
    let uni = get_init_universe();
    assert_eq!(uni.get_index(1, 1), 6);
    assert_eq!(uni.get_index(2, 1), 11);
    assert_eq!(uni.get_index(3, 1), 16);
}

#[test]
fn it_should_count_alive_neighbors() {
    let uni = get_init_universe();
    assert_eq!(uni.live_neighbor_count(0, 0), 1);
    assert_eq!(uni.live_neighbor_count(0, 1), 1);
    assert_eq!(uni.live_neighbor_count(1, 0), 2);
    assert_eq!(uni.live_neighbor_count(2, 1), 2);
    assert_eq!(uni.live_neighbor_count(2, 0), 3);
    assert_eq!(uni.live_neighbor_count(2, 2), 3);
    assert_eq!(uni.live_neighbor_count(3, 3), 0);
    assert_eq!(uni.live_neighbor_count(4, 1), 1);
}

#[test]
fn it_should_change_after_tick() {
    let mut uni = get_init_universe();
    assert_eq!(cell(&uni, 1, 1), Cell::Alive);
    assert_eq!(cell(&uni, 2, 1), Cell::Alive);
    assert_eq!(cell(&uni, 3, 1), Cell::Alive);
    assert_eq!(cell(&uni, 2, 0), Cell::Dead);
    assert_eq!(cell(&uni, 2, 2), Cell::Dead);
    assert_eq!(cell(&uni, 4, 2), Cell::Dead);
    uni.tick();
    assert_eq!(cell(&uni, 1, 1), Cell::Dead);
    assert_eq!(cell(&uni, 2, 1), Cell::Alive);
    assert_eq!(cell(&uni, 3, 1), Cell::Dead);
    assert_eq!(cell(&uni, 2, 0), Cell::Alive);
    assert_eq!(cell(&uni, 2, 2), Cell::Alive);
    assert_eq!(cell(&uni, 4, 2), Cell::Dead);
}

#[test]
fn it_should_render() {
    let uni = get_init_universe();
    let mut expected_str = String::from("");
    for row in 0..5 {
        for col in 0..5 {
            match (row, col) {
                (1, 1) | (2, 1) | (3, 1) => {
                    expected_str.push('◼');
                }
                _ => {
                    expected_str.push('◻');
                }
            }
            if col == 4 {
                expected_str.push('\n');
            }
        }
    }
    assert_eq!(uni.render(), expected_str);
}

#[test]
fn index_is_row_major_and_one_to_one() {
    let uni = board(4, 3, &[]);
    let mut seen = vec![false; 12];
    for row in 0..3u32 {
        for col in 0..4u32 {
            let idx = uni.get_index(row, col);
            assert_eq!(idx, (row * 4 + col) as usize);
            assert!(!seen[idx]);
            seen[idx] = true;
        }
    }
    assert!(seen.iter().all(|s| *s));
}

#[test]
fn neighbor_count_is_at_most_eight() {
    let mut alive = Vec::new();
    for row in 0..3u32 {
        for col in 0..3u32 {
            alive.push((row, col));
        }
    }
    let uni = board(3, 3, &alive);
    assert_eq!(uni.live_neighbor_count(1, 1), 8);
    assert_eq!(uni.live_neighbor_count(0, 0), 8);
}

#[test]
fn neighbor_count_moves_with_the_pattern() {
    let uni = get_init_universe();
    let moved = board(5, 5, &[(3, 3), (4, 3), (0, 3)]);
    for row in 0..5u32 {
        for col in 0..5u32 {
            assert_eq!(
                uni.live_neighbor_count(row, col),
                moved.live_neighbor_count((row + 2) % 5, (col + 2) % 5)
            );
        }
    }
}

#[test]
fn tick_gives_the_same_result_from_the_same_state() {
    let mut a = get_init_universe();
    let mut b = get_init_universe();
    a.tick();
    b.tick();
    assert_eq!(a.get_cells(), b.get_cells());
    assert_eq!(a.cells(), b.cells());
}

#[test]
fn blinker_returns_after_two_ticks() {
    let mut uni = get_init_universe();
    let start = uni.get_cells();
    uni.tick();
    assert_ne!(uni.get_cells(), start);
    uni.tick();
    assert_eq!(uni.get_cells(), start);
}

#[test]
fn live_cell_with_four_neighbors_dies() {
    let mut uni = board(5, 5, &[(2, 2), (1, 1), (1, 3), (3, 1), (3, 3)]);
    assert_eq!(uni.live_neighbor_count(2, 2), 4);
    uni.tick();
    assert_eq!(cell(&uni, 2, 2), Cell::Dead);
}

#[test]
fn dead_cell_with_two_neighbors_stays_dead() {
    let mut uni = board(5, 5, &[(1, 1), (1, 3)]);
    assert_eq!(uni.live_neighbor_count(1, 2), 2);
    uni.tick();
    assert_eq!(cell(&uni, 1, 2), Cell::Dead);
}

#[test]
fn block_is_still() {
    let mut uni = board(6, 6, &[(1, 1), (1, 2), (2, 1), (2, 2)]);
    let start = uni.get_cells();
    uni.tick();
    assert_eq!(uni.get_cells(), start);
}

#[test]
fn single_cell_board_counts_itself_through_wraparound() {
    let mut uni = board(1, 1, &[(0, 0)]);
    assert_eq!(uni.live_neighbor_count(0, 0), 5);
    uni.tick();
    assert_eq!(cell(&uni, 0, 0), Cell::Dead);
}

#[test]
fn single_row_board_wraps_horizontally() {
    let uni = board(3, 1, &[(0, 0), (0, 2)]);
    assert_eq!(uni.live_neighbor_count(0, 1), 6);
    assert_eq!(uni.live_neighbor_count(0, 0), 4);
}

#[test]
fn new_board_follows_the_seed_pattern() {
    let uni = Universe::new();
    assert_eq!(uni.width(), 64);
    assert_eq!(uni.height(), 64);
    let cells = uni.get_cells();
    assert_eq!(cells.len(), 4096);
    for (i, c) in cells.iter().enumerate() {
        let expected = if i % 2 == 0 || i % 7 == 0 { Cell::Alive } else { Cell::Dead };
        assert_eq!(*c, expected);
    }
}

#[test]
fn set_width_kills_every_cell() {
    let mut uni = Universe::new();
    uni.set_width(10);
    assert_eq!(uni.width(), 10);
    assert_eq!(uni.height(), 64);
    let cells = uni.get_cells();
    assert_eq!(cells.len(), 640);
    assert!(cells.iter().all(|c| *c == Cell::Dead));
    uni.set_width(10);
    assert_eq!(uni.get_cells(), cells);
}

#[test]
fn set_height_kills_every_cell() {
    let mut uni = get_init_universe();
    uni.set_height(7);
    assert_eq!(uni.width(), 5);
    assert_eq!(uni.height(), 7);
    let cells = uni.get_cells();
    assert_eq!(cells.len(), 35);
    assert!(cells.iter().all(|c| *c == Cell::Dead));
}

#[test]
fn toggle_flips_one_cell_and_undoes_itself() {
    let mut uni = get_init_universe();
    let start = uni.get_cells();
    uni.toggle_cell(0, 4);
    let once = uni.get_cells();
    for i in 0..25 {
        if i == 4 {
            assert_eq!(once[i], Cell::Alive);
        } else {
            assert_eq!(once[i], start[i]);
        }
    }
    uni.toggle_cell(0, 4);
    assert_eq!(uni.get_cells(), start);
    uni.toggle_cell(2, 1);
    assert_eq!(cell(&uni, 2, 1), Cell::Dead);
}

#[test]
fn cell_toggle_swaps_state() {
    let mut c = Cell::Dead;
    c.toggle();
    assert_eq!(c, Cell::Alive);
    c.toggle();
    assert_eq!(c, Cell::Dead);
}

#[test]
fn set_cells_leaves_other_cells_alone() {
    let mut uni = get_init_universe();
    uni.set_cells(&[(0, 0), (2, 1)]);
    let cells = uni.get_cells();
    let alive: Vec<usize> = (0..25).filter(|i| cells[*i] == Cell::Alive).collect();
    assert_eq!(alive, vec![0, 6, 11, 16]);
}

#[test]
fn packed_view_holds_one_bit_per_cell() {
    let uni = get_init_universe();
    let words = uni.cells();
    assert_eq!(words.len(), 4);
    assert_eq!(words, &[0b0100_0000, 0b0000_1000, 0b0000_0001, 0][..]);
}

#[test]
fn render_of_empty_rows() {
    let uni = board(0, 3, &[]);
    assert_eq!(uni.render(), "\n\n\n");
    let uni = board(2, 1, &[(0, 1)]);
    assert_eq!(uni.render(), "◻◼\n");
}
