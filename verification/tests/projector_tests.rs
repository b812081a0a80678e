use nibbles::board::Board;
use nibbles::game::{create_game_state, GameState, SnakeCell};
use nibbles::projector::{
    can_draw, check_bottom_top, decimal_text, draw_buffered, draw_pair_cell, shade_of,
    signed_decimal_text, BANNER,
};
use nibbles::terminal::{Cell, TermColor, Terminal};

const PLAIN: TermColor = TermColor::Default;
const FULL: char = '\u{2588}';
const UPPER: char = '\u{2580}';
const LOWER: char = '\u{2584}';

fn text_of(terminal: &Terminal, row: usize) -> String {
    terminal.rows[row].iter().map(|cell| cell.data).collect()
}

fn text(chars: Vec<char>) -> String {
    chars.into_iter().collect()
}

fn running_game() -> GameState {
    let mut state = create_game_state();
    state.paused = false;
    state.snake_vector = vec![SnakeCell(5, 4), SnakeCell(5, 5)];
    state.number_pos = (3, 4);
    state.duration_since_last_update = 100;
    state
}

#[test]
fn numbers_are_written_to_the_base_ten() {
    assert_eq!(text(decimal_text(0)), "0");
    assert_eq!(text(decimal_text(7)), "7");
    assert_eq!(text(decimal_text(10)), "10");
    assert_eq!(text(decimal_text(1234567890)), "1234567890");
    assert_eq!(text(decimal_text(u128::MAX)), "340282366920938463463374607431768211455");
}

#[test]
fn negative_numbers_carry_a_minus_sign() {
    assert_eq!(text(signed_decimal_text(0)), "0");
    assert_eq!(text(signed_decimal_text(1500)), "1500");
    assert_eq!(text(signed_decimal_text(-900)), "-900");
    assert_eq!(text(signed_decimal_text(i32::MAX)), "2147483647");
    assert_eq!(text(signed_decimal_text(i32::MIN)), "-2147483648");
}

#[test]
fn cell_values_stand_for_their_colours() {
    assert_eq!(shade_of(0), TermColor::Color(0));
    assert_eq!(shade_of(11), TermColor::Color(11));
    assert_eq!(shade_of(255), TermColor::Color(255));
    assert_eq!(shade_of(256), TermColor::Color(0));
    assert_eq!(shade_of(-1), TermColor::Color(255));
}

#[test]
fn first_and_last_row_of_the_field_are_on_the_border() {
    assert!(check_bottom_top(9, 0));
    assert!(check_bottom_top(9, 8));
    assert!(!check_bottom_top(9, 1));
    assert!(!check_bottom_top(9, 9));
    assert!(check_bottom_top(0, 0));
    assert!(!check_bottom_top(0, 5));
}

#[test]
fn two_empty_halves_leave_the_cell() {
    let mut terminal = Terminal::new(3, 1);
    terminal.write_str("a");
    terminal.ret();
    draw_pair_cell(&mut terminal, -1, -1, false);
    assert_eq!(terminal.rows[0][0].data, 'a');
    assert_eq!(terminal.cursor, (1, 0));
}

#[test]
fn two_equal_colours_make_a_full_block() {
    let mut terminal = Terminal::new(3, 1);
    draw_pair_cell(&mut terminal, 9, 9, false);
    assert_eq!(
        terminal.rows[0][0],
        Cell { foreground: TermColor::Color(9), background: TermColor::Color(9), data: FULL }
    );
    assert_eq!(terminal.foreground, PLAIN);
    assert_eq!(terminal.background, PLAIN);
    assert_eq!(terminal.cursor, (1, 0));
}

#[test]
fn two_different_colours_make_a_lower_half_on_the_upper_colour() {
    let mut terminal = Terminal::new(3, 1);
    draw_pair_cell(&mut terminal, 9, 11, true);
    assert_eq!(
        terminal.rows[0][0],
        Cell { foreground: TermColor::Color(11), background: TermColor::Color(9), data: LOWER }
    );
}

#[test]
fn one_colour_makes_the_half_block_of_its_half() {
    let mut terminal = Terminal::new(3, 1);
    draw_pair_cell(&mut terminal, 11, -1, false);
    draw_pair_cell(&mut terminal, -1, 9, false);
    assert_eq!(
        terminal.rows[0][0],
        Cell { foreground: TermColor::Color(11), background: PLAIN, data: UPPER }
    );
    assert_eq!(
        terminal.rows[0][1],
        Cell { foreground: TermColor::Color(9), background: PLAIN, data: LOWER }
    );
}

#[test]
fn one_colour_on_the_border_stands_on_the_colour_of_the_border() {
    let mut terminal = Terminal::new(3, 1);
    draw_pair_cell(&mut terminal, -1, 11, true);
    assert_eq!(
        terminal.rows[0][0],
        Cell { foreground: TermColor::Color(11), background: TermColor::Color(9), data: LOWER }
    );
    assert_eq!(terminal.background, PLAIN);
}

#[test]
fn status_row_shows_lives_level_time_and_score() {
    let state = running_game();
    let board = Board::new(39, 16);
    let mut terminal = Terminal::new(40, 10);
    draw_buffered(&state, &board, &mut terminal);
    assert_eq!(text_of(&terminal, 0), "Lives: 5        Level: 1    100        0");
    assert_eq!(terminal.rows[0][0].foreground, TermColor::Color(15));
    assert_eq!(terminal.rows[0][39].foreground, TermColor::Color(15));
    assert_eq!(terminal.rows[0][32], Cell::default());
}

#[test]
fn a_negative_score_ends_at_the_right_edge() {
    let mut state = running_game();
    state.score = -900;
    state.lives = 4;
    state.level = 3;
    state.duration_since_last_update = 7;
    let board = Board::new(39, 16);
    let mut terminal = Terminal::new(40, 10);
    draw_buffered(&state, &board, &mut terminal);
    assert_eq!(text_of(&terminal, 0), "Lives: 4        Level: 3    7       -900");
}

#[test]
fn border_runs_around_the_field() {
    let state = running_game();
    let board = Board::new(39, 16);
    let mut terminal = Terminal::new(40, 10);
    draw_buffered(&state, &board, &mut terminal);
    let top: String = format!("{}{}{}", FULL, UPPER.to_string().repeat(38), FULL);
    let bottom: String = format!("{}{}{}", FULL, LOWER.to_string().repeat(38), FULL);
    assert_eq!(text_of(&terminal, 1), top);
    assert_eq!(text_of(&terminal, 9), bottom);
    for row in 2..9 {
        assert_eq!(terminal.rows[row][0].data, FULL);
        assert_eq!(terminal.rows[row][39].data, FULL);
        assert_eq!(terminal.rows[row][0].foreground, TermColor::Color(9));
    }
    assert_eq!(terminal.rows[5][20], Cell::default());
}

#[test]
fn two_board_rows_share_a_row_of_the_frame() {
    let state = running_game();
    let mut board = Board::new(39, 16);
    board.set_pixel(5, 4, 11);
    board.set_pixel(7, 6, 9);
    board.set_pixel(7, 7, 9);
    board.set_pixel(8, 6, 9);
    board.set_pixel(8, 7, 11);
    board.set_pixel(10, 1, 11);
    board.set_pixel(12, 16, 9);
    let mut terminal = Terminal::new(40, 10);
    draw_buffered(&state, &board, &mut terminal);
    assert_eq!(
        terminal.rows[3][5],
        Cell { foreground: TermColor::Color(11), background: PLAIN, data: UPPER }
    );
    assert_eq!(
        terminal.rows[4][7],
        Cell { foreground: TermColor::Color(9), background: TermColor::Color(9), data: FULL }
    );
    assert_eq!(
        terminal.rows[4][8],
        Cell { foreground: TermColor::Color(11), background: TermColor::Color(9), data: LOWER }
    );
    assert_eq!(
        terminal.rows[1][10],
        Cell { foreground: TermColor::Color(11), background: TermColor::Color(9), data: LOWER }
    );
    assert_eq!(
        terminal.rows[9][12],
        Cell { foreground: TermColor::Color(9), background: TermColor::Color(9), data: UPPER }
    );
    assert_eq!(terminal.rows[1][11].data, UPPER);
}

#[test]
fn the_number_is_written_where_it_lies() {
    let mut state = running_game();
    state.current_number = 10;
    state.number_pos = (3, 5);
    let board = Board::new(39, 16);
    let mut terminal = Terminal::new(40, 10);
    draw_buffered(&state, &board, &mut terminal);
    assert_eq!(
        terminal.rows[3][3],
        Cell { foreground: TermColor::Color(15), background: PLAIN, data: '1' }
    );
    assert_eq!(terminal.rows[3][4].data, '0');
    assert_eq!(terminal.foreground, TermColor::Color(15));
}

#[test]
fn a_paused_game_shows_its_box_in_the_middle() {
    let mut state = running_game();
    state.paused = true;
    let board = Board::new(39, 16);
    let mut terminal = Terminal::new(40, 10);
    draw_buffered(&state, &board, &mut terminal);
    assert_eq!(text_of(&terminal, 0), "    Paused    100                      0");
    let upper: String = format!("{}{}{}", FULL, UPPER.to_string().repeat(25), FULL);
    let lower: String = format!("{}{}{}", FULL, LOWER.to_string().repeat(25), FULL);
    let middle: String = format!("{} Press SPACE to continue {}", FULL, FULL);
    let row = |y: usize| -> String { terminal.rows[y][7..34].iter().map(|c| c.data).collect() };
    assert_eq!(row(4), upper);
    assert_eq!(row(5), middle);
    assert_eq!(row(6), lower);
    assert_eq!(
        terminal.rows[5][8],
        Cell { foreground: TermColor::Color(15), background: TermColor::Color(1), data: ' ' }
    );
    assert_eq!(terminal.rows[4][6].data, ' ');
    assert_eq!(terminal.rows[4][34].data, ' ');
    assert_eq!(terminal.cursor, (7, 7));
    assert_eq!(terminal.foreground, PLAIN);
    assert_eq!(terminal.background, PLAIN);
}

#[test]
fn a_game_that_is_over_shows_the_banner() {
    let mut state = running_game();
    state.lives = 0;
    let board = Board::new(39, 16);
    let mut terminal = Terminal::new(70, 12);
    terminal.rows[11][5].data = 'x';
    draw_buffered(&state, &board, &mut terminal);
    let lines: Vec<&str> = BANNER.split('\n').collect();
    assert_eq!(lines.len(), 7);
    assert_eq!(lines[1].trim_end(), "   ______                        ____");
    for (row, line) in lines[1..6].iter().enumerate() {
        let shown = text_of(&terminal, row + 1);
        assert_eq!(shown.trim_end(), line.trim_end());
    }
    assert_eq!(text_of(&terminal, 0).trim_end(), "");
    assert_eq!(terminal.rows[1][3].foreground, TermColor::Color(12));
    assert_eq!(text_of(&terminal, 7).trim_end(), "Press SPACE to start again");
    assert_eq!(terminal.rows[7][0].foreground, TermColor::Color(15));
    assert_eq!(terminal.rows[11][5].data, ' ');
}

#[test]
fn room_is_needed_for_the_status_row_and_the_box() {
    let mut state = running_game();
    assert!(can_draw(&state, 32, 10));
    assert!(!can_draw(&state, 31, 10));
    state.score = -900;
    assert!(!can_draw(&state, 34, 10));
    assert!(can_draw(&state, 35, 10));
    state.paused = true;
    state.score = 0;
    assert!(!can_draw(&state, 25, 10));
    assert!(can_draw(&state, 26, 10));
    assert!(!can_draw(&state, 26, 1));
    state.lives = 0;
    assert!(can_draw(&state, 1, 1));
}
