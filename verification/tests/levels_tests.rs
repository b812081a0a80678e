use nibbles::board::Board;
use nibbles::game::{Direction, SnakeCell};
use nibbles::levels::{
    direction_from_index, lay_snake, random_direction, render_l1, render_l2, render_l3,
    render_l4, render_l5, render_l6, render_l7, render_l8, render_level, rounded_two_fifths,
    spawn_centred, spawn_has_room, spawn_l1, spawn_l2, spawn_l2_at, spawn_l3, spawn_l3_at,
    spawn_level, walls_have_room,
};

fn walls_of(board: &Board) -> Vec<(usize, usize)> {
    let mut cells = Vec::new();
    for y in 0..board.rows.len() {
        for x in 0..board.width {
            if board.rows[y][x] == 9 {
                cells.push((x, y));
            } else {
                assert_eq!(board.rows[y][x], -1);
            }
        }
    }
    cells.sort();
    cells
}

fn column(x: usize, from: usize, to: usize) -> Vec<(usize, usize)> {
    (from..to + 1).map(|y| (x, y)).collect()
}

fn row(y: usize, from: usize, to: usize) -> Vec<(usize, usize)> {
    (from..to + 1).map(|x| (x, y)).collect()
}

fn all(parts: Vec<Vec<(usize, usize)>>) -> Vec<(usize, usize)> {
    let mut cells: Vec<(usize, usize)> = parts.into_iter().flatten().collect();
    cells.sort();
    cells.dedup();
    cells
}

#[test]
fn two_fifths_are_rounded_to_the_nearest() {
    let expected = [0usize, 0, 1, 1, 2, 2, 2, 3, 3, 4, 4];
    for (n, r) in expected.iter().enumerate() {
        assert_eq!(rounded_two_fifths(n), *r);
    }
    assert_eq!(rounded_two_fifths(44), 18);
    assert_eq!(rounded_two_fifths(usize::MAX), usize::MAX / 5 * 2);
}

#[test]
fn first_level_has_no_walls() {
    let mut board = Board::new(20, 20);
    render_l1(&mut board);
    assert_eq!(walls_of(&board), vec![]);
}

#[test]
fn second_level_has_a_bar_across_the_middle() {
    let mut board = Board::new(21, 10);
    render_l2(&mut board);
    assert_eq!(walls_of(&board), row(5, 5, 16));
}

#[test]
fn third_level_has_two_upright_bars() {
    let mut board = Board::new(30, 12);
    render_l3(&mut board);
    assert_eq!(walls_of(&board), all(vec![column(10, 2, 10), column(20, 2, 10)]));
}

#[test]
fn fourth_level_has_four_bars_like_sails() {
    let mut board = Board::new(40, 20);
    render_l4(&mut board);
    assert_eq!(
        walls_of(&board),
        all(vec![column(10, 1, 13), column(30, 8, 20), row(4, 19, 39), row(16, 1, 21)])
    );
}

#[test]
fn fifth_level_has_a_box_with_open_corners() {
    let mut board = Board::new(40, 20);
    render_l5(&mut board);
    assert_eq!(
        walls_of(&board),
        all(vec![column(10, 7, 13), column(30, 7, 13), row(5, 11, 27), row(15, 11, 27)])
    );
}

#[test]
fn sixth_level_has_eight_gates() {
    let mut board = Board::new(41, 24);
    render_l6(&mut board);
    let mut parts = Vec::new();
    for i in 1..9 {
        parts.push(column(5 * i, 1, 11));
        parts.push(column(5 * i, 14, 24));
    }
    assert_eq!(walls_of(&board), all(parts));
}

#[test]
fn seventh_level_has_a_dotted_line() {
    let mut board = Board::new(11, 8);
    render_l7(&mut board);
    assert_eq!(walls_of(&board), vec![(5, 1), (5, 3), (5, 5), (5, 7)]);
}

#[test]
fn eighth_level_has_bars_from_above_and_below() {
    let mut board = Board::new(40, 24);
    render_l8(&mut board);
    let mut parts = Vec::new();
    for x in [7, 17, 27, 37] {
        parts.push(column(x, 1, 21));
    }
    for x in [12, 22, 32] {
        parts.push(column(x, 4, 24));
    }
    assert_eq!(walls_of(&board), all(parts));
}

#[test]
fn walls_are_built_by_the_number_of_the_level() {
    for level in 1..9u8 {
        let mut by_number = Board::new(41, 24);
        let mut by_name = Board::new(41, 24);
        render_level(level, &mut by_number);
        match level {
            1 => render_l1(&mut by_name),
            2 => render_l2(&mut by_name),
            3 => render_l3(&mut by_name),
            4 => render_l4(&mut by_name),
            5 => render_l5(&mut by_name),
            6 => render_l6(&mut by_name),
            7 => render_l7(&mut by_name),
            _ => render_l8(&mut by_name),
        }
        assert_eq!(by_number.rows, by_name.rows);
    }
}

#[test]
fn walls_need_room() {
    assert!(walls_have_room(1, 0, 0));
    assert!(walls_have_room(2, 3, 0));
    assert!(!walls_have_room(2, 2, 9));
    assert!(walls_have_room(3, 1, 0));
    assert!(!walls_have_room(3, 0, 5));
    assert!(walls_have_room(4, 4, 2));
    assert!(!walls_have_room(4, 3, 2));
    assert!(!walls_have_room(4, 4, 1));
    assert!(walls_have_room(5, 8, 8));
    assert!(!walls_have_room(5, 7, 8));
    assert!(walls_have_room(6, 41, 1));
    assert!(!walls_have_room(6, 40, 24));
    assert!(!walls_have_room(6, 41, 0));
    assert!(walls_have_room(7, 0, 1));
    assert!(!walls_have_room(7, 0, 2));
    assert!(walls_have_room(8, 20, 6));
    assert!(!walls_have_room(8, 20, 5));
    assert!(!walls_have_room(8, 16, 6));
    assert!(walls_have_room(8, 17, 6));
}

#[test]
fn snake_is_laid_out_behind_its_head() {
    let head = SnakeCell(5, 7);
    assert_eq!(lay_snake(head, Direction::Up), (vec![head, SnakeCell(5, 8)], Direction::Up));
    assert_eq!(lay_snake(head, Direction::Down), (vec![head, SnakeCell(5, 6)], Direction::Down));
    assert_eq!(lay_snake(head, Direction::Left), (vec![head, SnakeCell(6, 7)], Direction::Left));
    assert_eq!(lay_snake(head, Direction::Right), (vec![head, SnakeCell(4, 7)], Direction::Right));
}

#[test]
fn headings_are_numbered_clockwise_from_up() {
    assert_eq!(direction_from_index(0), Direction::Up);
    assert_eq!(direction_from_index(1), Direction::Right);
    assert_eq!(direction_from_index(2), Direction::Down);
    assert_eq!(direction_from_index(3), Direction::Left);
}

#[test]
fn chance_gives_every_heading() {
    let mut seen = [false; 4];
    for _ in 0..400 {
        match random_direction() {
            Direction::Up => seen[0] = true,
            Direction::Right => seen[1] = true,
            Direction::Down => seen[2] = true,
            Direction::Left => seen[3] = true,
        }
    }
    assert_eq!(seen, [true; 4]);
}

fn behind(head: SnakeCell, heading: Direction) -> SnakeCell {
    match heading {
        Direction::Up => SnakeCell(head.0, head.1 + 1),
        Direction::Down => SnakeCell(head.0, head.1 - 1),
        Direction::Left => SnakeCell(head.0 + 1, head.1),
        Direction::Right => SnakeCell(head.0 - 1, head.1),
    }
}

#[test]
fn first_snake_starts_near_the_middle() {
    let board = Board::new(40, 20);
    let mut heads = Vec::new();
    for _ in 0..300 {
        let (body, heading) = spawn_l1(&board);
        assert_eq!(body.len(), 2);
        assert!(17 <= body[0].0 && body[0].0 < 23);
        assert!(7 <= body[0].1 && body[0].1 < 13);
        assert_eq!(body[1], behind(body[0], heading));
        heads.push(body[0]);
    }
    heads.sort_by_key(|c| (c.0, c.1));
    heads.dedup();
    assert!(heads.len() > 10);
}

#[test]
fn second_snake_starts_off_the_row_of_the_wall() {
    let board = Board::new(12, 8);
    let mut left = 0;
    let mut right = 0;
    let mut columns = Vec::new();
    for _ in 0..300 {
        let (body, heading) = spawn_l2(&board);
        assert_eq!(body.len(), 2);
        assert!(1 <= body[0].0 && body[0].0 < 12);
        assert!(1 <= body[0].1 && body[0].1 < 8);
        assert!(body[0].1 != 4);
        assert_eq!(body[1], behind(body[0], heading));
        match heading {
            Direction::Left => left += 1,
            Direction::Right => right += 1,
            _ => panic!("the second snake heads left or right"),
        }
        columns.push(body[0].0);
    }
    assert!(left > 0 && right > 0);
    columns.sort();
    columns.dedup();
    assert!(columns.len() > 5);
}

#[test]
fn second_snake_moves_up_from_the_row_of_the_wall() {
    let board = Board::new(12, 8);
    assert_eq!(
        spawn_l2_at(&board, 3, 4, Direction::Left),
        (vec![SnakeCell(3, 3), SnakeCell(4, 3)], Direction::Left)
    );
    assert_eq!(
        spawn_l2_at(&board, 3, 5, Direction::Right),
        (vec![SnakeCell(3, 5), SnakeCell(2, 5)], Direction::Right)
    );
}

#[test]
fn third_snake_starts_off_the_columns_of_the_walls() {
    let board = Board::new(12, 8);
    let mut up = 0;
    let mut down = 0;
    for _ in 0..300 {
        let (body, heading) = spawn_l3(&board);
        assert_eq!(body.len(), 2);
        assert!(1 <= body[0].0 && body[0].0 < 12);
        assert!(body[0].0 != 4 && body[0].0 != 8);
        assert!(1 <= body[0].1 && body[0].1 < 8);
        assert_eq!(body[1], behind(body[0], heading));
        match heading {
            Direction::Up => up += 1,
            Direction::Down => down += 1,
            _ => panic!("the third snake heads up or down"),
        }
    }
    assert!(up > 0 && down > 0);
}

#[test]
fn third_snake_moves_left_from_the_column_of_a_wall() {
    let board = Board::new(12, 8);
    assert_eq!(
        spawn_l3_at(&board, 4, 2, Direction::Up),
        (vec![SnakeCell(3, 2), SnakeCell(3, 3)], Direction::Up)
    );
    assert_eq!(
        spawn_l3_at(&board, 8, 2, Direction::Down),
        (vec![SnakeCell(7, 2), SnakeCell(7, 1)], Direction::Down)
    );
    assert_eq!(
        spawn_l3_at(&board, 5, 2, Direction::Down),
        (vec![SnakeCell(5, 2), SnakeCell(5, 1)], Direction::Down)
    );
}

#[test]
fn later_snakes_start_in_the_middle() {
    let board = Board::new(41, 21);
    for level in 4..9u8 {
        let (body, heading) = spawn_level(level, &board);
        assert_eq!(body[0], SnakeCell(20, 10));
        assert_eq!(body[1], behind(body[0], heading));
    }
    let (body, heading) = spawn_centred(&board);
    assert_eq!(body, vec![SnakeCell(20, 10), behind(SnakeCell(20, 10), heading)]);
}

#[test]
fn early_snakes_are_started_by_the_number_of_the_level() {
    let board = Board::new(40, 20);
    for _ in 0..50 {
        let (first, _) = spawn_level(1, &board);
        assert!(17 <= first[0].0 && first[0].0 < 23);
        let (_, second) = spawn_level(2, &board);
        assert!(second == Direction::Left || second == Direction::Right);
        let (_, third) = spawn_level(3, &board);
        assert!(third == Direction::Up || third == Direction::Down);
    }
}

#[test]
fn snakes_need_room() {
    assert!(spawn_has_room(1, 6, 6));
    assert!(!spawn_has_room(1, 5, 6));
    assert!(!spawn_has_room(1, 6, 5));
    assert!(spawn_has_room(2, 2, 2));
    assert!(!spawn_has_room(2, 1, 2));
    assert!(spawn_has_room(3, 2, 2));
    assert!(!spawn_has_room(3, 2, 1));
    assert!(spawn_has_room(4, 0, 0));
    assert!(!spawn_has_room(4, 0x8000_0000, 0));
}
