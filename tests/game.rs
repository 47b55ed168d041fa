use rusty_snake::fruit::random_location;
use rusty_snake::grid::{Cell, Direction, Grid};
use rusty_snake::occupancy::Occupancy;
use rusty_snake::round::{update_dir, EndReason, Input, Round, Status};
use rusty_snake::snake::Snake;

fn cell(row: usize, col: usize) -> Cell {
    Cell { row, col }
}

fn grid(height: usize, width: usize) -> Grid {
    Grid::new(height, width).unwrap()
}

fn body_of(snake: &Snake) -> Vec<Cell> {
    snake.body.iter().copied().collect()
}

fn no_keys() -> Input {
    Input { up: false, down: false, left: false, right: false, quit: false, escape: false }
}

#[test]
fn grid_rejects_empty_or_oversized_extents() {
    assert!(Grid::new(0, 5).is_none());
    assert!(Grid::new(5, 0).is_none());
    assert!(Grid::new(usize::MAX, 2).is_none());
    let g = grid(4, 7);
    assert_eq!(g.dimensions(), (4, 7));
    assert_eq!(g.cell_count_exec(), 28);
}

#[test]
fn step_wraps_at_every_edge() {
    let g = grid(3, 4);
    assert_eq!(g.step(cell(0, 2), Direction::Up), cell(2, 2));
    assert_eq!(g.step(cell(2, 2), Direction::Down), cell(0, 2));
    assert_eq!(g.step(cell(1, 0), Direction::Left), cell(1, 3));
    assert_eq!(g.step(cell(1, 3), Direction::Right), cell(1, 0));
    assert_eq!(g.step(cell(1, 1), Direction::Up), cell(0, 1));
    assert_eq!(g.step(cell(1, 1), Direction::Down), cell(2, 1));
    assert_eq!(g.step(cell(1, 1), Direction::Left), cell(1, 0));
    assert_eq!(g.step(cell(1, 1), Direction::Right), cell(1, 2));
}

#[test]
fn step_stays_on_the_board() {
    let g = grid(3, 5);
    let dirs = [Direction::Up, Direction::Down, Direction::Left, Direction::Right];
    for row in 0..3 {
        for col in 0..5 {
            for d in dirs {
                let r = g.step(cell(row, col), d);
                assert!(r.row < 3 && r.col < 5);
            }
        }
    }
}

#[test]
fn opposite_steps_cancel() {
    let g = grid(4, 3);
    let dirs = [Direction::Up, Direction::Down, Direction::Left, Direction::Right];
    for row in 0..4 {
        for col in 0..3 {
            for d in dirs {
                let c = cell(row, col);
                assert_eq!(g.step(g.step(c, d), d.opposite()), c);
            }
        }
    }
}

#[test]
fn index_and_cell_are_row_major() {
    let g = grid(3, 4);
    assert_eq!(g.index(cell(2, 1)), 9);
    assert_eq!(g.cell(9), cell(2, 1));
    assert_eq!(g.cell(0), cell(0, 0));
    assert_eq!(g.cell(11), cell(2, 3));
}

#[test]
fn occupancy_tracks_insert_and_remove() {
    let g = grid(3, 3);
    let mut o = Occupancy::new(g);
    assert_eq!(o.len(), 0);
    o.insert(cell(1, 1));
    o.insert(cell(2, 0));
    o.insert(cell(1, 1));
    assert_eq!(o.len(), 2);
    assert!(o.contains(cell(1, 1)));
    assert!(!o.contains(cell(0, 1)));
    o.remove(cell(1, 1));
    assert_eq!(o.len(), 1);
    assert!(!o.contains(cell(1, 1)));
    o.remove(cell(0, 0));
    assert_eq!(o.len(), 1);
}

#[test]
fn free_cells_lists_the_rest_in_order() {
    let g = grid(2, 3);
    let mut o = Occupancy::new(g);
    o.insert(cell(0, 1));
    o.insert(cell(1, 2));
    assert_eq!(o.free_cells(), vec![cell(0, 0), cell(0, 2), cell(1, 0), cell(1, 1)]);
}

#[test]
fn fruit_lands_on_the_only_free_cell() {
    let g = grid(3, 3);
    let mut o = Occupancy::new(g);
    for k in 0..9 {
        if k != 5 {
            o.insert(g.cell(k));
        }
    }
    for _ in 0..20 {
        assert_eq!(random_location(&g, &o), cell(1, 2));
    }
}

#[test]
fn fruit_is_never_placed_on_the_snake() {
    let g = grid(4, 5);
    let mut o = Occupancy::new(g);
    for k in [0usize, 3, 4, 7, 8, 12, 19] {
        o.insert(g.cell(k));
    }
    for _ in 0..200 {
        let c = random_location(&g, &o);
        assert!(c.row < 4 && c.col < 5);
        assert!(!o.contains(c));
    }
}

#[test]
fn from_cells_rejects_bad_snakes() {
    let g = grid(4, 4);
    assert!(Snake::from_cells(&g, cell(4, 0), &vec![], Direction::Up).is_none());
    assert!(Snake::from_cells(&g, cell(0, 0), &vec![cell(0, 4)], Direction::Up).is_none());
    assert!(Snake::from_cells(&g, cell(0, 0), &vec![cell(1, 0), cell(1, 0)], Direction::Up).is_none());
    assert!(Snake::from_cells(&g, cell(0, 0), &vec![cell(1, 0), cell(0, 0)], Direction::Up).is_none());
    let s = Snake::from_cells(&g, cell(0, 0), &vec![cell(1, 0), cell(2, 0)], Direction::Up).unwrap();
    assert_eq!(s.occupied_count(&g), 3);
    assert!(s.covers(&g, cell(2, 0)));
    assert!(!s.covers(&g, cell(3, 0)));
}

#[test]
fn reversal_is_never_latched() {
    let g = grid(5, 5);
    let mut s = Snake::new(&g, cell(2, 2), Direction::Up);
    assert!(!s.request(Direction::Down));
    assert_eq!(s.pending, None);
    assert!(s.request(Direction::Left));
    assert_eq!(s.pending, Some(Direction::Left));
    assert!(!s.request(Direction::Right));
    assert!(!s.request(Direction::Up));
    assert_eq!(s.pending, Some(Direction::Left));
    s.advance(&g, cell(0, 0));
    assert_eq!(s.direction, Direction::Left);
    assert_eq!(s.pending, None);
    assert_eq!(s.head, cell(2, 1));
}

#[test]
fn update_dir_prefers_up_down_left_right() {
    let all = Input { up: true, down: true, left: true, right: true, quit: false, escape: false };
    assert_eq!(update_dir(Direction::Left, &all), Some(Direction::Up));
    assert_eq!(update_dir(Direction::Down, &all), Some(Direction::Down));
    let sides = Input { up: false, down: false, left: true, right: true, quit: false, escape: false };
    assert_eq!(update_dir(Direction::Right, &sides), Some(Direction::Right));
    assert_eq!(update_dir(Direction::Up, &sides), Some(Direction::Left));
    let back = Input { down: true, ..no_keys() };
    assert_eq!(update_dir(Direction::Up, &back), None);
    assert_eq!(update_dir(Direction::Up, &no_keys()), None);
}

#[test]
fn move_without_fruit_keeps_length() {
    let g = grid(5, 5);
    let mut s =
        Snake::from_cells(&g, cell(2, 2), &vec![cell(3, 2), cell(4, 2)], Direction::Up).unwrap();
    let m = s.advance(&g, cell(0, 0));
    assert!(!m.grew && !m.collided);
    assert_eq!(s.head, cell(1, 2));
    assert_eq!(body_of(&s), vec![cell(2, 2), cell(3, 2)]);
    assert_eq!(s.occupied_count(&g), 3);
    assert!(!s.covers(&g, cell(4, 2)));
}

#[test]
fn move_onto_fruit_grows_by_one() {
    let g = grid(5, 5);
    let mut s =
        Snake::from_cells(&g, cell(2, 2), &vec![cell(3, 2), cell(4, 2)], Direction::Up).unwrap();
    let m = s.advance(&g, cell(1, 2));
    assert!(m.grew && !m.collided);
    assert_eq!(body_of(&s), vec![cell(2, 2), cell(3, 2), cell(4, 2)]);
    assert_eq!(s.occupied_count(&g), 4);
}

#[test]
fn chasing_the_tail_is_no_collision() {
    let g = grid(2, 2);
    let mut s = Snake::from_cells(
        &g,
        cell(0, 0),
        &vec![cell(0, 1), cell(1, 1), cell(1, 0)],
        Direction::Left,
    )
    .unwrap();
    assert!(s.request(Direction::Down));
    let m = s.advance(&g, cell(0, 0));
    assert_eq!(s.head, cell(1, 0));
    assert!(!m.collided);
    assert_eq!(s.occupied_count(&g), 4);
}

#[test]
fn new_round_starts_in_the_middle() {
    let r = Round::new(grid(6, 9));
    assert_eq!(r.snake.head, cell(3, 4));
    assert!(r.snake.body.is_empty());
    assert_eq!(r.snake.direction, Direction::Up);
    assert_eq!(r.score, 0);
    assert_eq!(r.ended, None);
    assert_ne!(r.fruit, cell(3, 4));
    assert!(r.fruit.row < 6 && r.fruit.col < 9);
}

#[test]
fn one_cell_board_is_full_at_once() {
    let r = Round::new(grid(1, 1));
    assert_eq!(r.ended, Some(EndReason::BoardFull));
}

#[test]
fn from_cells_rejects_fruit_under_the_snake() {
    let g = grid(4, 4);
    assert!(Round::from_cells(g, cell(0, 0), &vec![cell(1, 0)], Direction::Up, cell(1, 0), 0).is_none());
    assert!(Round::from_cells(g, cell(0, 0), &vec![], Direction::Up, cell(0, 0), 0).is_none());
    assert!(Round::from_cells(g, cell(0, 0), &vec![], Direction::Up, cell(4, 0), 0).is_none());
    assert!(Round::from_cells(g, cell(0, 0), &vec![], Direction::Up, cell(3, 3), 0).is_some());
}

#[test]
fn eating_scenario_on_five_by_five() {
    let g = grid(5, 5);
    let mut r = Round::from_cells(g, cell(2, 2), &vec![], Direction::Up, cell(1, 2), 0).unwrap();
    let m = r.tick();
    assert!(m.grew);
    assert_eq!(r.snake.head, cell(1, 2));
    assert_eq!(body_of(&r.snake), vec![cell(2, 2)]);
    assert!(r.fruit != cell(1, 2) && r.fruit != cell(2, 2));
    assert!(r.fruit.row < 5 && r.fruit.col < 5);
    assert!(r.score >= 5 && r.score < 10);
    assert_eq!(r.ended, None);
}

#[test]
fn move_snake_adds_the_given_bonus() {
    let g = grid(5, 5);
    let mut r = Round::from_cells(g, cell(2, 2), &vec![], Direction::Up, cell(1, 2), 40).unwrap();
    let m = r.move_snake(7);
    assert!(m.grew);
    assert_eq!(r.score, 47);
    let mut r = Round::from_cells(g, cell(2, 2), &vec![], Direction::Up, cell(1, 2), u32::MAX - 2).unwrap();
    r.move_snake(7);
    assert_eq!(r.score, u32::MAX);
    let mut r = Round::from_cells(g, cell(2, 2), &vec![], Direction::Up, cell(4, 4), 40).unwrap();
    let m = r.move_snake(7);
    assert!(!m.grew);
    assert_eq!(r.score, 40);
}

#[test]
fn closed_loop_ends_in_self_collision() {
    let g = grid(3, 2);
    let mut r = Round::from_cells(
        g,
        cell(0, 0),
        &vec![cell(1, 0), cell(2, 0)],
        Direction::Up,
        cell(0, 1),
        12,
    )
    .unwrap();
    let up = Input { up: true, ..no_keys() };
    let left = Input { left: true, ..no_keys() };
    assert_eq!(r.frame(&up, true), Status::Running { ate: false });
    assert_eq!(r.frame(&up, true), Status::Running { ate: false });
    assert_eq!(r.frame(&left, true), Status::Running { ate: false });
    assert_eq!(r.snake.head, cell(1, 1));
    let st = r.frame(&no_keys(), true);
    assert_eq!(st, Status::Over { score: 12, reason: EndReason::SelfCollision });
    assert_eq!(r.ended, Some(EndReason::SelfCollision));
    assert_eq!(r.score, 12);
}

#[test]
fn filling_the_board_ends_the_round() {
    let g = grid(1, 3);
    let mut r = Round::from_cells(g, cell(0, 1), &vec![cell(0, 0)], Direction::Right, cell(0, 2), 20)
        .unwrap();
    let m = r.move_snake(6);
    assert!(m.grew && !m.collided);
    assert_eq!(r.snake.occupied_count(&g), 3);
    assert_eq!(r.ended, Some(EndReason::BoardFull));
    assert_eq!(r.score, 26);

    let mut r = Round::from_cells(g, cell(0, 1), &vec![cell(0, 0)], Direction::Right, cell(0, 2), 20)
        .unwrap();
    match r.frame(&no_keys(), true) {
        Status::Over { score, reason } => {
            assert_eq!(reason, EndReason::BoardFull);
            assert!(score >= 25 && score < 30);
            assert_eq!(score, r.score);
        }
        other => panic!("round should be over, got {:?}", other),
    }
}

#[test]
fn quit_and_escape_frames() {
    let g = grid(5, 5);
    let mut r = Round::from_cells(g, cell(2, 2), &vec![], Direction::Up, cell(4, 4), 3).unwrap();
    assert_eq!(r.frame(&no_keys(), false), Status::Running { ate: false });
    assert_eq!(r.snake.head, cell(2, 2));
    let esc = Input { escape: true, ..no_keys() };
    assert_eq!(r.frame(&esc, false), Status::Exit);
    let quit = Input { quit: true, escape: true, ..no_keys() };
    assert_eq!(r.frame(&quit, false), Status::Over { score: 3, reason: EndReason::Quit });
}

#[test]
fn frame_latches_one_turn_per_tick() {
    let g = grid(5, 5);
    let mut r = Round::from_cells(g, cell(2, 2), &vec![], Direction::Up, cell(4, 4), 0).unwrap();
    let left = Input { left: true, ..no_keys() };
    let right = Input { right: true, ..no_keys() };
    r.frame(&left, false);
    r.frame(&right, false);
    assert_eq!(r.snake.pending, Some(Direction::Left));
    r.frame(&no_keys(), true);
    assert_eq!(r.snake.head, cell(2, 1));
    assert_eq!(r.snake.direction, Direction::Left);
}
