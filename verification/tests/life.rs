use sim_engine::life::cell_key;
use sim_engine::life::game_of_life_step;
use sim_engine::life::get_num_neighbours;
use sim_engine::life::key_cell;
use sim_engine::life::parse_cells;
use sim_engine::life::vertex_list;
use sim_engine::life::GameOfLife;
use sim_engine::life::PatternError;
use std::collections::HashSet;

fn set_of(cells: &[(i32, i32)]) -> HashSet<u64> {
    cells.iter().map(|c| cell_key(c.0, c.1)).collect()
}

fn cells_of(keys: &HashSet<u64>) -> Vec<(i32, i32)> {
    let mut cells: Vec<(i32, i32)> = keys.iter().map(|k| key_cell(*k)).collect();
    cells.sort();
    cells
}

fn sorted(cells: &[(i32, i32)]) -> Vec<(i32, i32)> {
    let mut cells = cells.to_vec();
    cells.sort();
    cells
}

#[test]
fn keys_round_trip() {
    for cell in [(0, 0), (1, -1), (-1, 1), (i32::MIN, i32::MAX), (i32::MAX, i32::MIN), (7, 123456)] {
        assert_eq!(key_cell(cell_key(cell.0, cell.1)), cell);
    }
    assert_eq!(cell_key(i32::MIN, i32::MIN), 0);
    assert_eq!(cell_key(i32::MAX, i32::MAX), u64::MAX);
    assert_eq!(cell_key(0, 0), 0x8000_0000_8000_0000);
    assert_ne!(cell_key(1, 2), cell_key(2, 1));
}

#[test]
fn neighbours_are_counted_around_the_cell() {
    let alive = set_of(&[(0, 0), (1, 0), (0, 1), (1, 1)]);
    assert_eq!(get_num_neighbours(&(0, 0), &alive), 3);
    assert_eq!(get_num_neighbours(&(2, 0), &alive), 2);
    assert_eq!(get_num_neighbours(&(-1, -1), &alive), 1);
    assert_eq!(get_num_neighbours(&(5, 5), &alive), 0);
    let ring = set_of(&[(-1, -1), (0, -1), (1, -1), (-1, 0), (1, 0), (-1, 1), (0, 1), (1, 1)]);
    assert_eq!(get_num_neighbours(&(0, 0), &ring), 8);
}

#[test]
fn neighbours_at_the_edge_of_the_plane() {
    let alive = set_of(&[(i32::MAX, i32::MAX), (i32::MAX - 1, i32::MAX), (i32::MIN, i32::MIN)]);
    assert_eq!(get_num_neighbours(&(i32::MAX, i32::MAX), &alive), 1);
    assert_eq!(get_num_neighbours(&(i32::MAX, i32::MAX - 1), &alive), 2);
    assert_eq!(get_num_neighbours(&(i32::MIN, i32::MIN), &alive), 0);
    assert_eq!(get_num_neighbours(&(i32::MIN + 1, i32::MIN + 1), &alive), 1);
}

#[test]
fn block_is_a_still_life() {
    let block = [(0, 0), (1, 0), (0, 1), (1, 1)];
    let alive = set_of(&block);
    let mut next = HashSet::new();
    game_of_life_step(&alive, &mut next);
    assert_eq!(cells_of(&next), sorted(&block));
}

#[test]
fn glider_moves_one_cell_in_four_steps() {
    let glider = [(0, 0), (1, -1), (2, -1), (2, 0), (2, 1)];
    let mut alive = set_of(&glider);
    let mut next = HashSet::new();
    for _ in 0..4 {
        game_of_life_step(&alive, &mut next);
        std::mem::swap(&mut alive, &mut next);
    }
    let moved: Vec<(i32, i32)> = glider.iter().map(|c| (c.0 + 1, c.1 - 1)).collect();
    assert_eq!(cells_of(&alive), sorted(&moved));
}

#[test]
fn blinker_turns() {
    let alive = set_of(&[(-1, 0), (0, 0), (1, 0)]);
    let mut next = HashSet::new();
    game_of_life_step(&alive, &mut next);
    assert_eq!(cells_of(&next), sorted(&[(0, -1), (0, 0), (0, 1)]));
}

#[test]
fn step_clears_the_scratch_set_first() {
    let alive = set_of(&[(0, 0)]);
    let mut next = set_of(&[(40, 40), (41, 40), (40, 41), (41, 41)]);
    game_of_life_step(&alive, &mut next);
    assert!(next.is_empty());
}

#[test]
fn lonely_and_crowded_cells_die() {
    let alive = set_of(&[(0, 0), (1, 0)]);
    let mut next = HashSet::new();
    game_of_life_step(&alive, &mut next);
    assert!(next.is_empty());
    // the centre of a plus has four neighbours
    let plus = set_of(&[(0, 0), (1, 0), (-1, 0), (0, 1), (0, -1)]);
    game_of_life_step(&plus, &mut next);
    assert!(!next.contains(&cell_key(0, 0)));
    assert!(next.contains(&cell_key(1, 1)));
}

#[test]
fn nothing_is_born_beyond_the_plane() {
    // three cells in a row along the upper edge: the cell above the middle
    // one would be born, were it there
    let alive = set_of(&[(-1, i32::MAX), (0, i32::MAX), (1, i32::MAX)]);
    let mut next = HashSet::new();
    game_of_life_step(&alive, &mut next);
    assert_eq!(cells_of(&next), sorted(&[(0, i32::MAX - 1), (0, i32::MAX)]));
}

#[test]
fn pattern_is_read_row_by_row() {
    let keys = parse_cells("..O\nO.O\n.OO", (0, 0)).unwrap();
    let cells: Vec<(i32, i32)> = keys.iter().map(|k| key_cell(*k)).collect();
    assert_eq!(cells, vec![(2, 0), (0, -1), (2, -1), (1, -2), (2, -2)]);
}

#[test]
fn pattern_offset_and_other_characters() {
    let keys = parse_cells("O x.O\n\n O", (10, -3)).unwrap();
    let cells: Vec<(i32, i32)> = keys.iter().map(|k| key_cell(*k)).collect();
    assert_eq!(cells, vec![(10, -3), (12, -3), (10, -5)]);
    assert_eq!(parse_cells("", (5, 5)), Ok(vec![]));
}

#[test]
fn pattern_beyond_the_plane_is_refused() {
    assert_eq!(parse_cells(".O", (i32::MAX, 0)), Err(PatternError::OutOfPlane));
    assert_eq!(parse_cells("O\nO", (0, i32::MIN)), Err(PatternError::OutOfPlane));
    assert!(parse_cells("O.", (i32::MAX, 0)).is_ok());
    assert!(parse_cells("..\n.", (i32::MAX, i32::MIN)).is_ok());
}

#[test]
fn seeded_automaton_steps_and_lists_vertices() {
    let mut life = GameOfLife::new("..O\nO.O\n.OO", (0, 0));
    assert_eq!(life.alive_count(), 0);
    assert_eq!(life.seed(), Ok(()));
    assert_eq!(life.alive_count(), 5);
    assert!(life.is_alive(2, 0));
    assert!(!life.is_alive(0, 0));
    for _ in 0..4 {
        life.update();
    }
    // the glider has moved one cell right and one cell down
    for cell in [(3, -1), (1, -2), (3, -2), (2, -3), (3, -3)] {
        assert!(life.is_alive(cell.0, cell.1));
    }
    assert_eq!(life.alive_count(), 5);
    let vertices = life.vertices();
    assert_eq!(vertices.len(), 10);
    let mut listed: Vec<(i32, i32)> = vertices.chunks(2).map(|c| (c[0], c[1])).collect();
    listed.sort();
    assert_eq!(listed, sorted(&[(3, -1), (1, -2), (3, -2), (2, -3), (3, -3)]));
}

#[test]
fn seed_refuses_what_does_not_fit() {
    let mut life = GameOfLife::new("OO", (i32::MAX, 0));
    life.insert(4, 4);
    assert_eq!(life.seed(), Err(PatternError::OutOfPlane));
    assert_eq!(life.alive_count(), 1);
    assert!(life.is_alive(4, 4));
}

#[test]
fn step_keeps_the_vertex_list() {
    let mut life = GameOfLife::new("OOO", (0, 0));
    life.seed().unwrap();
    life.update();
    let before = life.vertices().clone();
    life.step();
    assert_eq!(life.vertices(), &before);
    assert!(life.is_alive(0, 0) && life.is_alive(1, 0) && life.is_alive(2, 0));
}

#[test]
fn vertex_list_holds_every_cell_once() {
    let alive = set_of(&[(5, 6), (-7, 8), (0, 0)]);
    let mut vertices = vec![1, 2, 3];
    vertex_list(&alive, &mut vertices);
    assert_eq!(vertices.len(), 6);
    let mut listed: Vec<(i32, i32)> = vertices.chunks(2).map(|c| (c[0], c[1])).collect();
    listed.sort();
    assert_eq!(listed, sorted(&[(5, 6), (-7, 8), (0, 0)]));
}
