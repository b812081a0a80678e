use nibbles::board::{Board, BoardIterator, EMPTY};
use nibbles::clamp::clamp;

#[test]
fn new_board_is_empty_and_one_row_higher() {
    let board = Board::new(4, 3);
    assert_eq!(board.width, 4);
    assert_eq!(board.height, 3);
    assert_eq!(board.rows.len(), 4);
    for row in board.rows.iter() {
        assert_eq!(row, &vec![EMPTY; 4]);
    }
}

#[test]
fn new_init_fills_every_cell() {
    let board = Board::new_init(3, 1, 7);
    assert_eq!(board.rows, vec![vec![7, 7, 7], vec![7, 7, 7]]);
}

#[test]
fn set_pixel_changes_one_cell_only() {
    let mut board = Board::new(3, 2);
    board.set_pixel(2, 1, 9);
    assert_eq!(board.lookup(2, 1), 9);
    assert_eq!(board.rows, vec![vec![-1, -1, -1], vec![-1, -1, 9], vec![-1, -1, -1]]);
}

#[test]
fn last_row_of_the_board_can_be_written() {
    let mut board = Board::new(2, 2);
    board.set_pixel(1, 2, 5);
    assert_eq!(board.lookup(1, 2), 5);
}

#[test]
fn clone_keeps_the_cells() {
    let mut board = Board::new(3, 2);
    board.set_pixel(0, 0, 4);
    let copy = board.clone();
    assert_eq!(copy.width, 3);
    assert_eq!(copy.height, 2);
    assert_eq!(copy.rows, board.rows);
}

fn marked_board(height: usize) -> Board {
    let mut board = Board::new(2, height);
    for y in 0..height + 1 {
        board.set_pixel(0, y, y as i16);
    }
    board
}

#[test]
fn pairs_of_an_odd_number_of_rows_end_with_a_single_row() {
    let board = marked_board(4);
    let mut it = board.iter();
    let mut seen: Vec<i16> = Vec::new();
    let mut steps = 0;
    while let Some((upper, lower)) = it.next() {
        seen.push(upper[0]);
        match lower {
            Some(row) => seen.push(row[0]),
            None => assert_eq!(steps, 2),
        }
        steps += 1;
    }
    assert_eq!(steps, 3);
    assert_eq!(seen, vec![0, 1, 2, 3, 4]);
    assert!(it.next().is_none());
}

#[test]
fn pairs_of_an_even_number_of_rows_are_all_full() {
    let board = marked_board(3);
    let mut it = BoardIterator::new(&board);
    let mut seen: Vec<i16> = Vec::new();
    while let Some((upper, lower)) = it.next() {
        seen.push(upper[0]);
        seen.push(lower.unwrap()[0]);
    }
    assert_eq!(seen, vec![0, 1, 2, 3]);
}

#[test]
fn every_row_is_shown_once_for_many_heights() {
    for height in 0..12usize {
        let board = marked_board(height);
        let mut it = board.iter();
        let mut seen: Vec<i16> = Vec::new();
        while let Some((upper, lower)) = it.next() {
            seen.push(upper[0]);
            if let Some(row) = lower {
                seen.push(row[0]);
            }
        }
        let expected: Vec<i16> = (0..(height as i16 + 1)).collect();
        assert_eq!(seen, expected);
    }
}

#[test]
fn clamp_keeps_a_value_inside() {
    assert_eq!(clamp(5, 0, 9), 5);
}

#[test]
fn clamp_raises_a_value_below() {
    assert_eq!(clamp(-3, 0, 9), 0);
}

#[test]
fn clamp_lowers_a_value_above() {
    assert_eq!(clamp(12usize, 0, 9), 9);
}

#[test]
fn clamp_to_a_single_point() {
    assert_eq!(clamp(1u8, 4, 4), 4);
    assert_eq!(clamp(7u8, 4, 4), 4);
}

#[test]
fn a_board_is_in_order_when_its_rows_agree_with_its_size() {
    let mut board = Board::new(3, 2);
    assert!(board.is_wf());
    board.rows[1].pop();
    assert!(!board.is_wf());
    board.rows[1].push(0);
    assert!(board.is_wf());
    board.rows.pop();
    assert!(!board.is_wf());
    board.height = 1;
    assert!(board.is_wf());
    board.width = 4;
    assert!(!board.is_wf());
}
