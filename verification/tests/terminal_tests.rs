use nibbles::terminal::{Cell, TermColor, Terminal};

fn text_of(terminal: &Terminal, row: usize) -> String {
    terminal.rows[row].iter().map(|cell| cell.data).collect()
}

#[test]
fn default_cell_is_a_space_in_default_colours() {
    let cell = Cell::default();
    assert_eq!(cell.data, ' ');
    assert_eq!(cell.foreground, TermColor::Default);
    assert_eq!(cell.background, TermColor::Default);
}

#[test]
fn new_terminal_is_blank_with_the_cursor_at_the_origin() {
    let terminal = Terminal::new(4, 3);
    assert_eq!(terminal.size, (4, 3));
    assert_eq!(terminal.cursor, (0, 0));
    assert_eq!(terminal.rows.len(), 3);
    for row in 0..3 {
        assert_eq!(text_of(&terminal, row), "    ");
    }
    assert_eq!(terminal.foreground, TermColor::Default);
    assert_eq!(terminal.background, TermColor::Default);
}

#[test]
fn goto_moves_inside_the_buffer() {
    let mut terminal = Terminal::new(10, 5);
    terminal.goto(3, 2);
    assert_eq!(terminal.cursor, (3, 2));
}

#[test]
fn goto_stops_at_the_last_column_and_row() {
    let mut terminal = Terminal::new(10, 5);
    terminal.goto(10, 5);
    assert_eq!(terminal.cursor, (9, 4));
    terminal.goto(usize::MAX, 0);
    assert_eq!(terminal.cursor, (9, 0));
}

#[test]
fn relative_moves_add_up_and_stop_at_the_edges() {
    let mut terminal = Terminal::new(10, 5);
    terminal.right(4);
    terminal.down(2);
    assert_eq!(terminal.cursor, (4, 2));
    terminal.left(1);
    terminal.up(1);
    assert_eq!(terminal.cursor, (3, 1));
    terminal.left(7);
    terminal.up(9);
    assert_eq!(terminal.cursor, (0, 0));
    terminal.right(100);
    terminal.down(100);
    assert_eq!(terminal.cursor, (9, 4));
}

#[test]
fn ret_goes_to_the_start_of_the_row() {
    let mut terminal = Terminal::new(10, 5);
    terminal.goto(6, 3);
    terminal.ret();
    assert_eq!(terminal.cursor, (0, 3));
}

#[test]
fn pen_colours_are_written_with_the_characters() {
    let mut terminal = Terminal::new(4, 1);
    terminal.set_foreground(TermColor::Color(12));
    terminal.set_background(TermColor::Color(1));
    terminal.write_str("a");
    terminal.set_background(TermColor::Default);
    terminal.write_str("b");
    assert_eq!(
        terminal.rows[0][0],
        Cell { foreground: TermColor::Color(12), background: TermColor::Color(1), data: 'a' }
    );
    assert_eq!(
        terminal.rows[0][1],
        Cell { foreground: TermColor::Color(12), background: TermColor::Default, data: 'b' }
    );
    assert_eq!(terminal.rows[0][2], Cell::default());
}

#[test]
fn writing_moves_the_cursor() {
    let mut terminal = Terminal::new(5, 2);
    terminal.write_str("abc");
    assert_eq!(text_of(&terminal, 0), "abc  ");
    assert_eq!(terminal.cursor, (3, 0));
}

#[test]
fn a_line_that_is_too_long_ends_with_one_replaced_character() {
    let mut terminal = Terminal::new(5, 2);
    terminal.write_str("abcdefgh");
    assert_eq!(text_of(&terminal, 0), "abcdf");
    assert_eq!(text_of(&terminal, 1), "     ");
    assert_eq!(terminal.cursor, (4, 0));
}

#[test]
fn a_line_that_just_fits_is_written_whole() {
    let mut terminal = Terminal::new(5, 2);
    terminal.write_str("abcde");
    assert_eq!(text_of(&terminal, 0), "abcde");
    assert_eq!(terminal.cursor, (4, 0));
}

#[test]
fn room_is_counted_from_where_the_line_starts() {
    let mut terminal = Terminal::new(5, 1);
    terminal.goto(3, 0);
    terminal.write_str("wxyz");
    assert_eq!(text_of(&terminal, 0), "   wy");
}

#[test]
fn a_line_feed_starts_the_next_row() {
    let mut terminal = Terminal::new(5, 3);
    terminal.write_str("ab\ncd");
    assert_eq!(text_of(&terminal, 0), "ab   ");
    assert_eq!(text_of(&terminal, 1), "cd   ");
    assert_eq!(terminal.cursor, (2, 1));
}

#[test]
fn a_line_feed_gives_the_next_line_room_again() {
    let mut terminal = Terminal::new(3, 3);
    terminal.write_str("abcdefg\nhi");
    assert_eq!(text_of(&terminal, 0), "abd");
    assert_eq!(text_of(&terminal, 1), "hi ");
}

#[test]
fn a_line_feed_on_the_last_row_stays_there() {
    let mut terminal = Terminal::new(3, 2);
    terminal.write_str("a\nb\nc");
    assert_eq!(text_of(&terminal, 0), "a  ");
    assert_eq!(text_of(&terminal, 1), "c  ");
    assert_eq!(terminal.cursor, (1, 1));
}

#[test]
fn put_writes_one_character() {
    let mut terminal = Terminal::new(2, 1);
    terminal.put('x');
    terminal.put('y');
    terminal.put('z');
    assert_eq!(text_of(&terminal, 0), "xz");
    assert_eq!(terminal.cursor, (1, 0));
}

#[test]
fn characters_can_be_written_from_a_vector() {
    let mut terminal = Terminal::new(6, 1);
    terminal.write_chars(&vec!['n', 'o', 'w']);
    assert_eq!(text_of(&terminal, 0), "now   ");
}

#[test]
fn a_character_can_be_repeated() {
    let mut terminal = Terminal::new(6, 1);
    terminal.write_repeated('=', 4);
    assert_eq!(text_of(&terminal, 0), "====  ");
    terminal.write_repeated('-', 0);
    assert_eq!(terminal.cursor, (4, 0));
    terminal.write_repeated('+', 9);
    assert_eq!(text_of(&terminal, 0), "====++");
}

#[test]
fn clear_blanks_the_cells_and_keeps_cursor_and_pen() {
    let mut terminal = Terminal::new(3, 2);
    terminal.set_foreground(TermColor::Color(3));
    terminal.write_str("ab\nc");
    terminal.clear();
    for row in 0..2 {
        for cell in terminal.rows[row].iter() {
            assert_eq!(*cell, Cell::default());
        }
    }
    assert_eq!(terminal.cursor, (1, 1));
    assert_eq!(terminal.foreground, TermColor::Color(3));
    assert_eq!(terminal.size, (3, 2));
}

#[test]
fn a_buffer_is_in_shape_when_its_rows_agree_with_its_size() {
    let mut terminal = Terminal::new(3, 2);
    assert!(terminal.is_shaped());
    terminal.rows[0].pop();
    assert!(!terminal.is_shaped());
    terminal.rows[0].push(Cell::default());
    terminal.rows.push(Vec::new());
    assert!(!terminal.is_shaped());
    assert!(Terminal::new(0, 0).is_shaped());
    assert!(Terminal::new(0, 4).is_shaped());
}
