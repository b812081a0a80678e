use nibbles::board::Board;
use nibbles::raster::{draw_line, draw_line_high, draw_line_low, WALL};

fn walls_of(board: &Board) -> Vec<(usize, usize)> {
    let mut cells = Vec::new();
    for y in 0..board.rows.len() {
        for x in 0..board.width {
            if board.rows[y][x] == WALL {
                cells.push((x, y));
            }
        }
    }
    cells.sort();
    cells
}

fn sorted(mut cells: Vec<(usize, usize)>) -> Vec<(usize, usize)> {
    cells.sort();
    cells
}

#[test]
fn shallow_line_steps_by_the_error_term() {
    let mut board = Board::new(8, 8);
    draw_line(&mut board, 0, 0, 5, 2);
    assert_eq!(
        walls_of(&board),
        sorted(vec![(0, 0), (1, 0), (2, 1), (3, 1), (4, 2), (5, 2)])
    );
}

#[test]
fn steep_line_steps_by_the_error_term() {
    let mut board = Board::new(8, 8);
    draw_line(&mut board, 1, 0, 3, 5);
    assert_eq!(
        walls_of(&board),
        sorted(vec![(1, 0), (1, 1), (2, 2), (2, 3), (3, 4), (3, 5)])
    );
}

#[test]
fn rising_line_goes_up_to_the_right() {
    let mut board = Board::new(8, 8);
    draw_line(&mut board, 0, 3, 6, 0);
    assert_eq!(
        walls_of(&board),
        sorted(vec![(0, 3), (1, 3), (2, 2), (3, 2), (4, 1), (5, 1), (6, 0)])
    );
}

#[test]
fn tie_is_broken_towards_the_start() {
    let mut board = Board::new(4, 4);
    draw_line(&mut board, 0, 0, 2, 1);
    assert_eq!(walls_of(&board), sorted(vec![(0, 0), (1, 0), (2, 1)]));
}

#[test]
fn diagonal_line_is_a_staircase_of_single_cells() {
    let mut board = Board::new(5, 5);
    draw_line(&mut board, 4, 4, 1, 1);
    assert_eq!(walls_of(&board), sorted(vec![(1, 1), (2, 2), (3, 3), (4, 4)]));
}

#[test]
fn level_and_upright_lines_are_straight() {
    let mut board = Board::new(6, 6);
    draw_line(&mut board, 1, 2, 4, 2);
    draw_line(&mut board, 5, 6, 5, 3);
    assert_eq!(
        walls_of(&board),
        sorted(vec![(1, 2), (2, 2), (3, 2), (4, 2), (5, 3), (5, 4), (5, 5), (5, 6)])
    );
}

#[test]
fn a_line_between_equal_ends_is_one_cell() {
    let mut board = Board::new(3, 3);
    draw_line(&mut board, 2, 1, 2, 1);
    assert_eq!(walls_of(&board), vec![(2, 1)]);
}

#[test]
fn a_line_is_the_same_from_either_end() {
    let ends = [
        (0usize, 0usize, 9usize, 4usize),
        (9, 0, 0, 4),
        (2, 9, 5, 0),
        (0, 0, 9, 9),
        (3, 1, 3, 8),
        (0, 7, 9, 7),
        (1, 1, 8, 2),
        (8, 1, 7, 9),
        (4, 4, 4, 4),
        (0, 1, 9, 8),
    ];
    for (x0, y0, x1, y1) in ends {
        let mut forth = Board::new(10, 10);
        let mut back = Board::new(10, 10);
        draw_line(&mut forth, x0, y0, x1, y1);
        draw_line(&mut back, x1, y1, x0, y0);
        assert_eq!(forth.rows, back.rows);
        assert_eq!(forth.lookup(x0, y0), WALL);
        assert_eq!(forth.lookup(x1, y1), WALL);
    }
}

#[test]
fn a_line_has_one_cell_for_each_step_along_its_longer_side() {
    let mut board = Board::new(12, 12);
    draw_line(&mut board, 1, 2, 10, 6);
    let cells = walls_of(&board);
    assert_eq!(cells.len(), 10);
    for x in 1..11 {
        assert_eq!(cells.iter().filter(|c| c.0 == x).count(), 1);
    }
}

#[test]
fn a_line_leaves_other_cells_alone() {
    let mut board = Board::new_init(4, 3, 3);
    draw_line(&mut board, 0, 1, 3, 1);
    assert_eq!(
        board.rows,
        vec![vec![3, 3, 3, 3], vec![9, 9, 9, 9], vec![3, 3, 3, 3], vec![3, 3, 3, 3]]
    );
}

#[test]
fn the_two_halves_of_the_rule_agree_on_the_diagonal() {
    let mut low = Board::new(4, 4);
    let mut high = Board::new(4, 4);
    draw_line_low(&mut low, 0, 0, 3, 3);
    draw_line_high(&mut high, 0, 0, 3, 3);
    assert_eq!(low.rows, high.rows);
}

#[test]
fn low_line_can_rise() {
    let mut board = Board::new(5, 3);
    draw_line_low(&mut board, 0, 2, 4, 0);
    assert_eq!(walls_of(&board), sorted(vec![(0, 2), (1, 2), (2, 1), (3, 1), (4, 0)]));
}

#[test]
fn high_line_can_lean_left() {
    let mut board = Board::new(3, 4);
    draw_line_high(&mut board, 2, 0, 0, 4);
    assert_eq!(walls_of(&board), sorted(vec![(2, 0), (2, 1), (1, 2), (1, 3), (0, 4)]));
}

#[test]
fn a_low_run_to_the_left_paints_nothing() {
    let mut board = Board::new_init(6, 4, 3);
    draw_line_low(&mut board, 4, 1, 1, 2);
    assert_eq!(board.rows, Board::new_init(6, 4, 3).rows);
    assert_eq!(board.width, 6);
    assert_eq!(board.height, 4);
}

#[test]
fn a_high_run_upwards_paints_nothing() {
    let mut board = Board::new_init(6, 4, 3);
    draw_line_high(&mut board, 2, 3, 2, 0);
    assert_eq!(board.rows, Board::new_init(6, 4, 3).rows);
}

#[test]
fn a_run_between_equal_ends_is_one_cell() {
    let mut low = Board::new(4, 4);
    draw_line_low(&mut low, 2, 3, 2, 3);
    assert_eq!(walls_of(&low), vec![(2, 3)]);
    let mut high = Board::new(4, 4);
    draw_line_high(&mut high, 2, 3, 2, 3);
    assert_eq!(walls_of(&high), vec![(2, 3)]);
}

#[test]
fn a_low_run_of_one_column_stays_at_its_start() {
    let mut board = Board::new(4, 6);
    draw_line_low(&mut board, 2, 1, 2, 5);
    assert_eq!(walls_of(&board), vec![(2, 1)]);
}

#[test]
fn a_low_run_that_cannot_keep_up_moves_by_one_in_every_column() {
    let mut down = Board::new(8, 8);
    draw_line_low(&mut down, 1, 1, 3, 6);
    assert_eq!(walls_of(&down), sorted(vec![(1, 1), (2, 2), (3, 3)]));
    let mut up = Board::new(8, 8);
    draw_line_low(&mut up, 1, 6, 3, 1);
    assert_eq!(walls_of(&up), sorted(vec![(1, 6), (2, 5), (3, 4)]));
}

#[test]
fn a_high_run_that_cannot_keep_up_moves_by_one_in_every_row() {
    let mut right = Board::new(8, 8);
    draw_line_high(&mut right, 1, 1, 6, 3);
    assert_eq!(walls_of(&right), sorted(vec![(1, 1), (2, 2), (3, 3)]));
    let mut left = Board::new(8, 8);
    draw_line_high(&mut left, 6, 1, 1, 3);
    assert_eq!(walls_of(&left), sorted(vec![(6, 1), (5, 2), (4, 3)]));
}
